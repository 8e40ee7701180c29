//! Bitcoin peer-to-peer framing: compact sizes, `headers` payloads, frame
//! envelopes, and the chain check of a batch of received headers.
use vstd::prelude::*;
use crate::bignum::le_value;
use vstd::arithmetic::power2::pow2;
use crate::pow::u32_le_bytes;
use crate::dataset::bitcoin_display_hash;
use crate::nonce::figure_at;
use crate::nonce::x1331_states;
use crate::stratum::hex_encode;
use crate::stratum::hex_encode_spec;

verus! {

#[verifier::external_type_specification]
#[verifier::external_body]
pub struct ExEncodeError(bitcoin::consensus::encode::Error);

/// A block header with its fields as plain values.
#[derive(Debug, Clone, Copy)]
pub struct BlockHeader {
    pub version: i32,
    pub prev_blockhash: [u8; 32],
    pub merkle_root: [u8; 32],
    pub time: u32,
    pub bits: u32,
    pub nonce: u32,
}

/// The consensus serialization of a header: its fields in order, integers little-endian.
pub open spec fn header_bytes(h: BlockHeader) -> Seq<u8> {
    u32_le_bytes(h.version as u32) + h.prev_blockhash@ + h.merkle_root@ + u32_le_bytes(h.time)
        + u32_le_bytes(h.bits) + u32_le_bytes(h.nonce)
}

/// Little-endian 32-bit value at `pos`.
pub open spec fn le_u32_at(b: Seq<u8>, pos: int) -> u32 {
    (b[pos] + b[pos + 1] * 0x100 + b[pos + 2] * 0x1_0000 + b[pos + 3] * 0x100_0000) as u32
}

/// Calls `bitcoin::consensus::deserialize::<bitcoin::block::Header>`. Trusted:
/// 80 bytes always decode, into version, previous hash, Merkle root, time,
/// bits and nonce read in that order, integers little-endian (bitcoin 0.32,
/// `impl_consensus_encoding!(Header, ...)`).
#[verifier::external_body]
fn deserialize_header(raw: &[u8; 80]) -> (r: Result<BlockHeader, bitcoin::consensus::encode::Error>)
    ensures
        r is Ok,
        r matches Ok(h) ==> header_bytes(h) == raw@,
{
    match bitcoin::consensus::deserialize::<bitcoin::block::Header>(raw) {
        Ok(h) => Ok(BlockHeader {
            version: h.version.to_consensus(),
            prev_blockhash: bitcoin::hashes::Hash::to_byte_array(h.prev_blockhash),
            merkle_root: bitcoin::hashes::Hash::to_byte_array(h.merkle_root),
            time: h.time,
            bits: h.bits.to_consensus(),
            nonce: h.nonce,
        }),
        Err(e) => Err(e),
    }
}

/// Bitcoin's block hash of a serialized header, as `bitcoin` computes it.
pub uninterp spec fn bitcoin_block_hash(header: Seq<u8>) -> Seq<u8>;

/// The target that `bitcoin` decodes from a compact `bits` field
/// (`Target::from_compact`): the top byte is the exponent and the low three
/// bytes the mantissa. For exponents up to three the mantissa loses its
/// `3 - exponent` low bytes; above three it is shifted up by
/// `8 * (exponent - 3)` bits, a shift `bitcoin`'s 256-bit integer takes
/// modulo 256, keeping the low 256 bits. A mantissa above `0x7fffff` (its
/// sign bit set) gives the zero target.
pub open spec fn bitcoin_target(bits: u32) -> nat {
    let e = (bits >> 24u32) as nat;
    let low = (bits & 0x00ff_ffffu32) as nat;
    let mant = if e <= 3 {
        low / pow2((8 * (3 - e)) as nat)
    } else {
        low
    };
    let shift = if e <= 3 {
        0nat
    } else {
        ((8 * (e - 3)) % 256) as nat
    };
    if mant > 0x7f_ffff {
        0
    } else {
        (mant * pow2(shift)) % pow2(256)
    }
}

/// Whether `bitcoin` accepts the header's proof of work against the target
/// its own `bits` encode: the block hash, read as a little-endian number,
/// is at most that target.
pub open spec fn bitcoin_pow_valid(h: BlockHeader) -> bool {
    le_value(bitcoin_block_hash(header_bytes(h))) <= bitcoin_target(h.bits)
}

/// Bitcoin's double SHA-256 of a message payload.
pub uninterp spec fn bitcoin_sha256d(data: Seq<u8>) -> Seq<u8>;

/// Calls `bitcoin::block::Header::block_hash`. Trusted: the result is
/// `bitcoin_block_hash` of the header's serialization.
#[verifier::external_body]
fn block_hash(h: &BlockHeader) -> (r: [u8; 32])
    ensures
        r@ == bitcoin_block_hash(header_bytes(*h)),
{
    let header = bitcoin::block::Header {
        version: bitcoin::block::Version::from_consensus(h.version),
        prev_blockhash: <bitcoin::BlockHash as bitcoin::hashes::Hash>::from_byte_array(h.prev_blockhash),
        merkle_root: <bitcoin::TxMerkleNode as bitcoin::hashes::Hash>::from_byte_array(h.merkle_root),
        time: h.time,
        bits: bitcoin::CompactTarget::from_consensus(h.bits),
        nonce: h.nonce,
    };
    bitcoin::hashes::Hash::to_byte_array(header.block_hash())
}

/// Calls `bitcoin::block::Header::validate_pow` with the header's own
/// `target()`. Trusted: the targets agree, so it succeeds exactly when
/// `Target::is_met_by` accepts the block hash, which is `bitcoin_pow_valid`
/// (bitcoin 0.32, `Target::from_compact` and `U256` in `pow.rs`).
#[verifier::external_body]
fn pow_valid(h: &BlockHeader) -> (r: bool)
    ensures
        r == bitcoin_pow_valid(*h),
{
    let header = bitcoin::block::Header {
        version: bitcoin::block::Version::from_consensus(h.version),
        prev_blockhash: <bitcoin::BlockHash as bitcoin::hashes::Hash>::from_byte_array(h.prev_blockhash),
        merkle_root: <bitcoin::TxMerkleNode as bitcoin::hashes::Hash>::from_byte_array(h.merkle_root),
        time: h.time,
        bits: bitcoin::CompactTarget::from_consensus(h.bits),
        nonce: h.nonce,
    };
    header.validate_pow(header.target()).is_ok()
}

/// Calls `bitcoin::consensus::serialize` on a header. Trusted: the bytes
/// are the header's fields in order, integers little-endian (bitcoin 0.32,
/// `impl_consensus_encoding!(Header, ...)`).
#[verifier::external_body]
fn serialize_header(h: &BlockHeader) -> (r: Vec<u8>)
    ensures
        r@ == header_bytes(*h),
{
    let header = bitcoin::block::Header {
        version: bitcoin::block::Version::from_consensus(h.version),
        prev_blockhash: <bitcoin::BlockHash as bitcoin::hashes::Hash>::from_byte_array(h.prev_blockhash),
        merkle_root: <bitcoin::TxMerkleNode as bitcoin::hashes::Hash>::from_byte_array(h.merkle_root),
        time: h.time,
        bits: bitcoin::CompactTarget::from_consensus(h.bits),
        nonce: h.nonce,
    };
    bitcoin::consensus::serialize(&header)
}

/// Calls `bitcoin::hashes::sha256d::Hash::hash`. Trusted: the 32 bytes are
/// `bitcoin_sha256d` of the payload.
#[verifier::external_body]
fn payload_sha256d(data: &[u8]) -> (r: [u8; 32])
    ensures
        r@ == bitcoin_sha256d(data@),
{
    bitcoin::hashes::Hash::to_byte_array(<bitcoin::hashes::sha256d::Hash as bitcoin::hashes::Hash>::hash(data))
}

/// Calls `bitcoin::p2p::Magic::BITCOIN.to_bytes()`. Trusted: mainnet's
/// magic bytes `f9 be b4 d9` (bitcoin 0.32, `Magic::BITCOIN`).
#[verifier::external_body]
fn mainnet_magic() -> (r: [u8; 4])
    ensures
        r@ == seq![0xf9u8, 0xbeu8, 0xb4u8, 0xd9u8],
{
    bitcoin::p2p::Magic::BITCOIN.to_bytes()
}

/// The value and length of the compact size at `pos`, if the bytes hold one:
/// one byte below 0xfd, or a 0xfd/0xfe/0xff marker followed by a 2/4/8-byte
/// little-endian integer.
pub open spec fn compact_size_spec(b: Seq<u8>, pos: int) -> Option<(u64, nat)> {
    if pos >= b.len() {
        None
    } else if b[pos] < 0xfd {
        Some((b[pos] as u64, 1nat))
    } else if b[pos] == 0xfd {
        if pos + 3 <= b.len() {
            Some(((b[pos + 1] + b[pos + 2] * 0x100) as u64, 3nat))
        } else {
            None
        }
    } else if b[pos] == 0xfe {
        if pos + 5 <= b.len() {
            Some((le_u32_at(b, pos + 1) as u64, 5nat))
        } else {
            None
        }
    } else if pos + 9 <= b.len() {
        Some(((le_u32_at(b, pos + 1) as nat + le_u32_at(b, pos + 5) as nat * 0x1_0000_0000) as u64,
            9nat))
    } else {
        None
    }
}

/// Why a message could not be decoded.
#[derive(Debug, Clone, Copy, PartialEq, Eq, Structural)]
pub enum DecodeError {
    /// The bytes ended inside a field.
    UnexpectedEnd,
    /// More headers than a batch may hold.
    TooManyHeaders { count: u64 },
    /// A header carried transactions.
    NonZeroTxCount { index: u64, tx_count: u64 },
    /// Bytes were left over after the last header.
    TrailingBytes { consumed: usize, len: usize },
}

fn le_u32(b: &[u8], pos: usize) -> (r: u32)
    requires
        pos + 4 <= b@.len(),
    ensures
        r == le_u32_at(b@, pos as int),
{
    let v = b[pos] as u32 + b[pos + 1] as u32 * 0x100 + b[pos + 2] as u32 * 0x1_0000 + b[pos + 3]
        as u32 * 0x100_0000;
    v
}

/// Reads a compact size at `pos`, returning it and its length.
pub fn read_compact_size(b: &[u8], pos: usize) -> (r: Result<(u64, usize), DecodeError>)
    ensures
        match compact_size_spec(b@, pos as int) {
            Some((v, n)) => r == Ok::<(u64, usize), DecodeError>((v, n as usize)),
            None => r == Err::<(u64, usize), DecodeError>(DecodeError::UnexpectedEnd),
        },
{
    if pos >= b.len() {
        return Err(DecodeError::UnexpectedEnd);
    }
    let first = b[pos];
    if first < 0xfd {
        Ok((first as u64, 1))
    } else if first == 0xfd {
        if b.len() - pos < 3 {
            return Err(DecodeError::UnexpectedEnd);
        }
        Ok(((b[pos + 1] as u64 + b[pos + 2] as u64 * 0x100), 3))
    } else if first == 0xfe {
        if b.len() - pos < 5 {
            return Err(DecodeError::UnexpectedEnd);
        }
        Ok((le_u32(b, pos + 1) as u64, 5))
    } else {
        if b.len() - pos < 9 {
            return Err(DecodeError::UnexpectedEnd);
        }
        let lo = le_u32(b, pos + 1) as u64;
        let hi = le_u32(b, pos + 5) as u64;
        Ok((lo + hi * 0x1_0000_0000, 9))
    }
}

/// Largest batch of headers a peer may send.
pub const MAX_HEADERS_PER_BATCH: u64 = 2000;

/// The first `k` header records from `pos`: each is 80 header bytes
/// followed by a compact-size transaction count that must be zero. Gives
/// the raw headers and the position after the last record.
pub open spec fn header_records(payload: Seq<u8>, pos: int, k: nat) -> Option<(Seq<Seq<u8>>, int)>
    decreases k,
{
    if k == 0 {
        Some((Seq::empty(), pos))
    } else {
        match header_records(payload, pos, (k - 1) as nat) {
            None => None,
            Some((raws, p)) => if p + 80 > payload.len() {
                None
            } else {
                match compact_size_spec(payload, p + 80) {
                    Some((tx_count, m)) => if tx_count == 0 {
                        Some((raws.push(payload.subrange(p, p + 80)), p + 80 + m))
                    } else {
                        None
                    },
                    None => None,
                }
            },
        }
    }
}

/// A `headers` payload decoded: a count of at most 2000 records, the
/// records, and nothing after them.
pub open spec fn headers_ok(payload: Seq<u8>, headers: Seq<BlockHeader>) -> bool {
    match compact_size_spec(payload, 0) {
        None => false,
        Some((count, n)) => {
            &&& count <= MAX_HEADERS_PER_BATCH
            &&& match header_records(payload, n as int, count as nat) {
                None => false,
                Some((raws, end)) => {
                    &&& end == payload.len()
                    &&& headers.len() == count
                    &&& forall|i: int| 0 <= i < count ==> #[trigger] header_bytes(headers[i]) == raws[i]
                },
            }
        },
    }
}

/// The first error met reading records `i..count` from `pos`, or `None`
/// when they all parse and end exactly at the end of the payload.
pub open spec fn scan_error(payload: Seq<u8>, pos: int, i: nat, count: nat) -> Option<DecodeError>
    decreases count - i,
{
    if i >= count {
        if pos == payload.len() {
            None
        } else {
            Some(DecodeError::TrailingBytes { consumed: pos as usize, len: payload.len() as usize })
        }
    } else if pos + 80 > payload.len() {
        Some(DecodeError::UnexpectedEnd)
    } else {
        match compact_size_spec(payload, pos + 80) {
            None => Some(DecodeError::UnexpectedEnd),
            Some((tx_count, m)) => if tx_count != 0 {
                Some(DecodeError::NonZeroTxCount { index: i as u64, tx_count })
            } else {
                scan_error(payload, pos + 80 + m, i + 1, count)
            },
        }
    }
}

/// The error a `headers` payload is refused with, or `None` when it decodes.
pub open spec fn headers_error(payload: Seq<u8>) -> Option<DecodeError> {
    match compact_size_spec(payload, 0) {
        None => Some(DecodeError::UnexpectedEnd),
        Some((count, n)) => if count > MAX_HEADERS_PER_BATCH {
            Some(DecodeError::TooManyHeaders { count })
        } else {
            scan_error(payload, n as int, 0, count as nat)
        },
    }
}

/// Reading records one by one from `p0` reaches, after `k` good records,
/// the same verdict as reading on from where they end.
proof fn lemma_records_scan(payload: Seq<u8>, p0: int, k: nat, count: nat)
    requires
        k <= count,
        header_records(payload, p0, k) is Some,
    ensures
        scan_error(payload, p0, 0, count) == scan_error(payload, header_records(payload, p0, k)->Some_0.1, k, count),
    decreases k,
{
    if k > 0 {
        let prev = header_records(payload, p0, (k - 1) as nat);
        assert(prev is Some);
        lemma_records_scan(payload, p0, (k - 1) as nat, count);
    }
}

/// Reading records never reports too many headers.
proof fn lemma_scan_not_too_many(payload: Seq<u8>, pos: int, i: nat, count: nat)
    ensures
        !(scan_error(payload, pos, i, count) matches Some(DecodeError::TooManyHeaders { .. })),
    decreases count - i,
{
    if i < count && pos + 80 <= payload.len() {
        match compact_size_spec(payload, pos + 80) {
            Some((tx_count, m)) => if tx_count == 0 {
                lemma_scan_not_too_many(payload, pos + 80 + m, i + 1, count);
            },
            None => {},
        }
    }
}

/// Batch law: a `headers` payload whose count is at most 2000, whose records
/// are each 80 header bytes followed by a zero transaction count, and which
/// ends with the last record, is accepted; a payload is refused as holding
/// too many headers only when its count is above 2000, and then with that
/// count.
pub proof fn lemma_headers_batch_bound(payload: Seq<u8>)
    ensures
        ({
            let c = compact_size_spec(payload, 0);
            &&& c is Some
            &&& c->Some_0.0 <= 2000
            &&& header_records(payload, c->Some_0.1 as int, c->Some_0.0 as nat) is Some
            &&& header_records(payload, c->Some_0.1 as int, c->Some_0.0 as nat)->Some_0.1 == payload.len()
        }) ==> headers_error(payload) is None,
        headers_error(payload) matches Some(DecodeError::TooManyHeaders { count }) ==> count > 2000
            && compact_size_spec(payload, 0) == Some((count, compact_size_spec(payload, 0)->Some_0.1)),
{
    match compact_size_spec(payload, 0) {
        None => {},
        Some((count, n)) => {
            if count <= 2000 {
                lemma_scan_not_too_many(payload, n as int, 0, count as nat);
                if header_records(payload, n as int, count as nat) is Some {
                    lemma_records_scan(payload, n as int, count as nat, count as nat);
                }
            }
        },
    }
}

/// Decodes the payload of a `headers` message.
pub fn decode_headers_payload(payload: &[u8]) -> (r: Result<Vec<BlockHeader>, DecodeError>)
    ensures
        r matches Ok(hs) ==> headers_ok(payload@, hs@),
        (exists|hs: Seq<BlockHeader>| headers_ok(payload@, hs)) ==> r is Ok,
        r is Ok <==> headers_error(payload@) is None,
        r matches Err(e) ==> headers_error(payload@) == Some(e),
        ({
            let c = compact_size_spec(payload@, 0);
            &&& c is Some
            &&& c->Some_0.0 <= 2000
            &&& header_records(payload@, c->Some_0.1 as int, c->Some_0.0 as nat) is Some
            &&& header_records(payload@, c->Some_0.1 as int, c->Some_0.0 as nat)->Some_0.1 == payload@.len()
        }) ==> r is Ok,
        (compact_size_spec(payload@, 0) is Some && compact_size_spec(payload@, 0)->Some_0.0 > 2000) ==> r
            == Err::<Vec<BlockHeader>, DecodeError>(
            DecodeError::TooManyHeaders { count: compact_size_spec(payload@, 0)->Some_0.0 },
        ),
        r matches Err(DecodeError::TooManyHeaders { count }) ==> count > 2000,
{
    proof {
        lemma_headers_batch_bound(payload@);
    }
    let (count, n) = read_compact_size(payload, 0)?;
    if count > MAX_HEADERS_PER_BATCH {
        return Err(DecodeError::TooManyHeaders { count });
    }
    let mut headers: Vec<BlockHeader> = Vec::new();
    let mut pos = n;
    let mut i: u64 = 0;
    let ghost mut raws: Seq<Seq<u8>> = Seq::empty();
    while i < count
        invariant
            compact_size_spec(payload@, 0) == Some((count, n as nat)),
            count <= MAX_HEADERS_PER_BATCH,
            i <= count,
            pos <= payload@.len(),
            payload@.len() == payload.len(),
            header_records(payload@, n as int, i as nat) == Some((raws, pos as int)),
            headers_error(payload@) == scan_error(payload@, pos as int, i as nat, count as nat),
            headers@.len() == i,
            raws.len() == i,
            forall|j: int| 0 <= j < i ==> #[trigger] header_bytes(headers@[j]) == raws[j],
        decreases count - i,
    {
        if payload.len() - pos < 80 {
            proof {
                if exists|hs: Seq<BlockHeader>| headers_ok(payload@, hs) {
                    lemma_next_record(payload@, n as int, i as nat, count, raws, pos as int);
                }
            }
            proof {
                lemma_headers_batch_bound(payload@);
            }
            return Err(DecodeError::UnexpectedEnd);
        }
        let mut raw = [0u8; 80];
        let mut k: usize = 0;
        while k < 80
            invariant
                k <= 80,
                pos + 80 <= payload@.len(),
                payload@.len() == payload.len(),
                forall|x: int| 0 <= x < k ==> #[trigger] raw@[x] == payload@[pos + x],
            decreases 80 - k,
        {
            raw[k] = payload[pos + k];
            k = k + 1;
        }
        assert(raw@ =~= payload@.subrange(pos as int, pos + 80));
        let header = match deserialize_header(&raw) {
            Ok(h) => h,
            Err(_) => {
                proof {
                    lemma_headers_batch_bound(payload@);
                }
                return Err(DecodeError::UnexpectedEnd);
            },
        };
        let (tx_count, m) = match read_compact_size(payload, pos + 80) {
            Ok(x) => x,
            Err(e) => {
                proof {
                    if exists|hs: Seq<BlockHeader>| headers_ok(payload@, hs) {
                        lemma_next_record(payload@, n as int, i as nat, count, raws, pos as int);
                    }
                    lemma_headers_batch_bound(payload@);
                }
                return Err(e);
            },
        };
        if tx_count != 0 {
            proof {
                if exists|hs: Seq<BlockHeader>| headers_ok(payload@, hs) {
                    lemma_next_record(payload@, n as int, i as nat, count, raws, pos as int);
                }
                lemma_headers_batch_bound(payload@);
            }
            return Err(DecodeError::NonZeroTxCount { index: i, tx_count });
        }
        headers.push(header);
        proof {
            raws = raws.push(payload@.subrange(pos as int, pos + 80));
        }
        pos = pos + 80 + m;
        i = i + 1;
    }
    if pos != payload.len() {
        return Err(DecodeError::TrailingBytes { consumed: pos, len: payload.len() });
    }
    Ok(headers)
}

/// If all `count` records parse and `i < count` have, the next one does.
proof fn lemma_next_record(payload: Seq<u8>, n: int, i: nat, count: u64, raws: Seq<Seq<u8>>, pos: int)
    requires
        header_records(payload, n, i) == Some((raws, pos)),
        i < count,
        n >= 0,
        compact_size_spec(payload, 0) == Some((count, n as nat)),
        exists|hs: Seq<BlockHeader>| headers_ok(payload, hs),
    ensures
        pos + 80 <= payload.len(),
        compact_size_spec(payload, pos + 80) is Some,
        compact_size_spec(payload, pos + 80)->Some_0.0 == 0,
{
    let hs = choose|hs: Seq<BlockHeader>| headers_ok(payload, hs);
    assert(header_records(payload, n, count as nat) is Some);
    lemma_records_prefix(payload, n, i + 1, count as nat);
}

/// If all `count` records parse, so do the first `k`.
proof fn lemma_records_prefix(payload: Seq<u8>, pos: int, k: nat, count: nat)
    requires
        k <= count,
        header_records(payload, pos, count) is Some,
    ensures
        header_records(payload, pos, k) is Some,
    decreases count,
{
    if k < count {
        lemma_records_prefix(payload, pos, k, (count - 1) as nat);
    }
}

/// Largest payload a frame may announce.
pub const MAX_P2P_PAYLOAD: usize = 32 * 1024 * 1024;

/// Why a frame envelope was refused.
#[derive(Debug, Clone, Copy, PartialEq, Eq, Structural)]
pub enum FrameError {
    /// Not Bitcoin mainnet's magic.
    BadMagic,
    /// The announced payload is larger than `MAX_P2P_PAYLOAD`.
    PayloadTooLarge { len: usize },
}

/// The command name: envelope bytes 4..16 up to the first zero byte.
pub open spec fn command_spec(env: Seq<u8>) -> Seq<u8> {
    let cmd = env.subrange(4, 16);
    if exists|k: int| 0 <= k < 12 && cmd[k] == 0 {
        cmd.take(choose|k: int| 0 <= k < 12 && cmd[k] == 0 && forall|j: int| 0 <= j < k ==> cmd[j] != 0)
    } else {
        cmd
    }
}

/// Reads a 24-byte frame envelope: checks the magic, takes the command and
/// the announced payload length.
pub fn parse_envelope(envelope: &[u8; 24]) -> (r: Result<(Vec<u8>, usize), FrameError>)
    ensures
        r is Err && r->Err_0 == FrameError::BadMagic <==> envelope@.take(4) != seq![0xf9u8, 0xbeu8,
            0xb4u8, 0xd9u8],
        r matches Err(FrameError::PayloadTooLarge { len }) ==> len == le_u32_at(envelope@, 16)
            && len > MAX_P2P_PAYLOAD,
        r is Ok <==> (envelope@.take(4) == seq![0xf9u8, 0xbeu8, 0xb4u8, 0xd9u8] && le_u32_at(
            envelope@, 16) <= MAX_P2P_PAYLOAD),
        r matches Ok((cmd, len)) ==> cmd@ == command_spec(envelope@) && len == le_u32_at(envelope@, 16),
{
    let magic = mainnet_magic();
    if envelope[0] != magic[0] || envelope[1] != magic[1] || envelope[2] != magic[2] || envelope[3]
        != magic[3] {
        proof {
            assert(envelope@.take(4) != magic@) by {
                if envelope@.take(4) == magic@ {
                    assert(envelope@.take(4)[0] == envelope@[0]);
                    assert(envelope@.take(4)[1] == envelope@[1]);
                    assert(envelope@.take(4)[2] == envelope@[2]);
                    assert(envelope@.take(4)[3] == envelope@[3]);
                }
            }
        }
        return Err(FrameError::BadMagic);
    }
    assert(envelope@.take(4) =~= magic@);
    let mut cmd: Vec<u8> = Vec::new();
    let mut k: usize = 4;
    while k < 16 && envelope[k] != 0
        invariant
            4 <= k <= 16,
            cmd@ == envelope@.subrange(4, k as int),
            forall|j: int| 4 <= j < k ==> envelope@[j] != 0,
        decreases 16 - k,
    {
        cmd.push(envelope[k]);
        k = k + 1;
        assert(cmd@ =~= envelope@.subrange(4, k as int));
    }
    proof {
        let c = envelope@.subrange(4, 16);
        if k < 16 {
            let kk = (k - 4) as int;
            assert(c[kk] == 0);
            let w = choose|w: int| 0 <= w < 12 && c[w] == 0 && forall|j: int| 0 <= j < w ==> c[j] != 0;
            assert(w == kk) by {
                if w < kk {
                    assert(envelope@[w + 4] != 0);
                }
                if kk < w {
                    assert(c[kk] != 0);
                }
            }
            assert(cmd@ =~= c.take(kk));
        } else {
            assert(!exists|j: int| 0 <= j < 12 && c[j] == 0) by {
                assert forall|j: int| 0 <= j < 12 implies c[j] != 0 by {
                    assert(envelope@[j + 4] != 0);
                }
            }
            assert(cmd@ =~= c);
        }
    }
    let len = le_u32(envelope, 16) as usize;
    if len > MAX_P2P_PAYLOAD {
        return Err(FrameError::PayloadTooLarge { len });
    }
    Ok((cmd, len))
}

/// Whether the payload's checksum (the first four bytes of its double
/// SHA-256) matches envelope bytes 20..24.
pub fn checksum_matches(envelope: &[u8; 24], payload: &[u8]) -> (r: bool)
    ensures
        r == (bitcoin_sha256d(payload@).take(4) == envelope@.subrange(20, 24)),
{
    let sum = payload_sha256d(payload);
    let ok = sum[0] == envelope[20] && sum[1] == envelope[21] && sum[2] == envelope[22] && sum[3]
        == envelope[23];
    proof {
        if ok {
            assert(sum@.take(4) =~= envelope@.subrange(20, 24));
        } else {
            if sum@.take(4) == envelope@.subrange(20, 24) {
                assert(sum@.take(4)[0] == envelope@.subrange(20, 24)[0]);
                assert(sum@.take(4)[1] == envelope@.subrange(20, 24)[1]);
                assert(sum@.take(4)[2] == envelope@.subrange(20, 24)[2]);
                assert(sum@.take(4)[3] == envelope@.subrange(20, 24)[3]);
            }
        }
    }
    ok
}

/// Why a batch of headers does not extend the chain.
#[derive(Debug, Clone, Copy, PartialEq, Eq, Structural)]
pub enum ChainError {
    /// Header `index` does not point at the previous block.
    Broken { index: usize },
    /// Header `index` fails its proof of work.
    BadProofOfWork { index: usize },
}

/// The hash of the last of the first `k` headers, if each points at the one
/// before it (the first at `prev`) and carries a valid proof of work.
pub open spec fn chain_walk(hs: Seq<BlockHeader>, prev: Seq<u8>, k: nat) -> Result<Seq<u8>, ChainError>
    decreases k,
{
    if k == 0 {
        Ok(prev)
    } else {
        match chain_walk(hs, prev, (k - 1) as nat) {
            Err(e) => Err(e),
            Ok(p) => {
                let h = hs[k - 1];
                if h.prev_blockhash@ != p {
                    Err(ChainError::Broken { index: (k - 1) as usize })
                } else if !bitcoin_pow_valid(h) {
                    Err(ChainError::BadProofOfWork { index: (k - 1) as usize })
                } else {
                    Ok(bitcoin_block_hash(header_bytes(h)))
                }
            },
        }
    }
}

fn bytes32_eq(a: &[u8; 32], b: &[u8; 32]) -> (r: bool)
    ensures
        r == (a@ == b@),
{
    let mut i: usize = 0;
    while i < 32
        invariant
            i <= 32,
            a@.take(i as int) == b@.take(i as int),
        decreases 32 - i,
    {
        if a[i] != b[i] {
            return false;
        }
        assert(a@.take(i + 1) =~= a@.take(i as int).push(a@[i as int]));
        assert(b@.take(i + 1) =~= b@.take(i as int).push(b@[i as int]));
        i = i + 1;
    }
    assert(a@ =~= a@.take(32));
    assert(b@ =~= b@.take(32));
    true
}

/// The chain walk with the proof-of-work verdicts and block hashes given:
/// `pow[i]` and `hashes[i]` stand for header `i`'s.
pub open spec fn links_walk(
    hs: Seq<BlockHeader>,
    prev: Seq<u8>,
    pow: Seq<bool>,
    hashes: Seq<[u8; 32]>,
    k: nat,
) -> Result<Seq<u8>, ChainError>
    decreases k,
{
    if k == 0 {
        Ok(prev)
    } else {
        match links_walk(hs, prev, pow, hashes, (k - 1) as nat) {
            Err(e) => Err(e),
            Ok(p) => {
                if hs[k - 1].prev_blockhash@ != p {
                    Err(ChainError::Broken { index: (k - 1) as usize })
                } else if !pow[k - 1] {
                    Err(ChainError::BadProofOfWork { index: (k - 1) as usize })
                } else {
                    Ok(hashes[k - 1]@)
                }
            },
        }
    }
}

/// Checks the first `usable` headers of a batch against the chain tip
/// `expected_prev`, given each header's proof-of-work verdict and block
/// hash, and returns the hash of the last one.
pub fn check_links(
    headers: &Vec<BlockHeader>,
    expected_prev: [u8; 32],
    pow: &Vec<bool>,
    hashes: &Vec<[u8; 32]>,
    usable: usize,
) -> (r: Result<[u8; 32], ChainError>)
    requires
        usable <= headers@.len(),
        usable <= pow@.len(),
        usable <= hashes@.len(),
    ensures
        match links_walk(headers@, expected_prev@, pow@, hashes@, usable as nat) {
            Ok(h) => r is Ok && r->Ok_0@ == h,
            Err(e) => r == Err::<[u8; 32], ChainError>(e),
        },
{
    let mut expected = expected_prev;
    let mut i: usize = 0;
    while i < usable
        invariant
            i <= usable <= headers@.len(),
            usable <= pow@.len(),
            usable <= hashes@.len(),
            links_walk(headers@, expected_prev@, pow@, hashes@, i as nat) == Ok::<Seq<u8>, ChainError>(
                expected@,
            ),
        decreases usable - i,
    {
        if !bytes32_eq(&headers[i].prev_blockhash, &expected) {
            proof {
                lemma_links_error_persists(headers@, expected_prev@, pow@, hashes@, (i + 1) as nat, usable as nat);
            }
            return Err(ChainError::Broken { index: i });
        }
        if !pow[i] {
            proof {
                lemma_links_error_persists(headers@, expected_prev@, pow@, hashes@, (i + 1) as nat, usable as nat);
            }
            return Err(ChainError::BadProofOfWork { index: i });
        }
        expected = hashes[i];
        i = i + 1;
    }
    Ok(expected)
}

/// Once the walk with given answers fails, it fails the same way on longer prefixes.
proof fn lemma_links_error_persists(
    hs: Seq<BlockHeader>,
    prev: Seq<u8>,
    pow: Seq<bool>,
    hashes: Seq<[u8; 32]>,
    k: nat,
    n: nat,
)
    requires
        k <= n,
        links_walk(hs, prev, pow, hashes, k) is Err,
    ensures
        links_walk(hs, prev, pow, hashes, n) == links_walk(hs, prev, pow, hashes, k),
    decreases n,
{
    if k < n {
        lemma_links_error_persists(hs, prev, pow, hashes, k, (n - 1) as nat);
    }
}

/// With the verdicts and hashes that `bitcoin` gives, the walk with given
/// answers is the chain walk.
proof fn lemma_links_are_chain(hs: Seq<BlockHeader>, prev: Seq<u8>, pow: Seq<bool>, hashes: Seq<[u8; 32]>, k: nat)
    requires
        k <= pow.len(),
        k <= hashes.len(),
        forall|i: int| 0 <= i < k ==> #[trigger] pow[i] == bitcoin_pow_valid(hs[i]),
        forall|i: int| 0 <= i < k ==> (#[trigger] hashes[i])@ == bitcoin_block_hash(header_bytes(hs[i])),
    ensures
        links_walk(hs, prev, pow, hashes, k) == chain_walk(hs, prev, k),
    decreases k,
{
    if k > 0 {
        lemma_links_are_chain(hs, prev, pow, hashes, (k - 1) as nat);
        assert(pow[k - 1] == bitcoin_pow_valid(hs[k - 1]));
        assert(hashes[k - 1]@ == bitcoin_block_hash(header_bytes(hs[k - 1])));
    }
}

/// Checks the first `usable` headers of a batch against the chain tip
/// `expected_prev` and returns the hash of the last one.
pub fn verify_chain(headers: &Vec<BlockHeader>, expected_prev: [u8; 32], usable: usize) -> (r:
    Result<[u8; 32], ChainError>)
    requires
        usable <= headers@.len(),
    ensures
        match chain_walk(headers@, expected_prev@, usable as nat) {
            Ok(h) => r is Ok && r->Ok_0@ == h,
            Err(e) => r == Err::<[u8; 32], ChainError>(e),
        },
{
    let mut pow: Vec<bool> = Vec::new();
    let mut hashes: Vec<[u8; 32]> = Vec::new();
    let mut i: usize = 0;
    while i < usable
        invariant
            i <= usable <= headers@.len(),
            pow@.len() == i,
            hashes@.len() == i,
            forall|j: int| 0 <= j < i ==> #[trigger] pow@[j] == bitcoin_pow_valid(headers@[j]),
            forall|j: int| 0 <= j < i ==> (#[trigger] hashes@[j])@ == bitcoin_block_hash(
                header_bytes(headers@[j]),
            ),
        decreases usable - i,
    {
        pow.push(pow_valid(&headers[i]));
        hashes.push(block_hash(&headers[i]));
        i = i + 1;
    }
    proof {
        lemma_links_are_chain(headers@, expected_prev@, pow@, hashes@, usable as nat);
    }
    check_links(headers, expected_prev, &pow, &hashes, usable)
}

/// The start height and user agent of a `version` message, as `bitcoin`
/// decodes its payload (`None` when it does not decode).
pub uninterp spec fn bitcoin_version_message(payload: Seq<u8>) -> Option<(i32, Seq<char>)>;

/// Calls `bitcoin::consensus::deserialize::<VersionMessage>`. Trusted: it
/// succeeds exactly when `bitcoin_version_message` is `Some`, and then
/// gives that start height and user agent.
#[verifier::external_body]
fn version_fields(payload: &[u8]) -> (r: Result<(i32, String), bitcoin::consensus::encode::Error>)
    ensures
        r is Ok <==> bitcoin_version_message(payload@) is Some,
        r matches Ok((h, ua)) ==> bitcoin_version_message(payload@) == Some((h, ua@)),
{
    match bitcoin::consensus::deserialize::<bitcoin::p2p::message_network::VersionMessage>(payload) {
        Ok(v) => Ok((v.start_height, v.user_agent)),
        Err(e) => Err(e),
    }
}

/// Calls `bitcoin::consensus::deserialize::<u64>`. Trusted: it succeeds
/// exactly on eight bytes, read little-endian (bitcoin 0.32: `u64` reads
/// eight bytes and `deserialize` refuses bytes left over).
#[verifier::external_body]
fn ping_nonce(payload: &[u8]) -> (r: Result<u64, bitcoin::consensus::encode::Error>)
    ensures
        r is Ok <==> payload@.len() == 8,
        r matches Ok(n) ==> n == le_value(payload@),
{
    bitcoin::consensus::deserialize::<u64>(payload)
}

/// Why talking to a peer failed.
#[derive(Debug, Clone, Copy, PartialEq, Eq, Structural)]
pub enum PeerError {
    /// A `version` payload did not decode.
    BadVersion,
    /// A `ping` payload was not eight bytes.
    BadPing,
    /// A `headers` payload did not decode.
    Headers(DecodeError),
}

/// What to do after a frame from a peer.
pub enum PeerAction {
    SendVerack,
    SendPong(u64),
    /// The headers that were asked for.
    Headers(Vec<BlockHeader>),
    /// Nothing to send.
    Ignore,
    /// Give up on the peer.
    Fail(PeerError),
}

/// The answer to a `ping`: a `pong` with its nonce, or a failure.
pub open spec fn ping_answer(payload: Seq<u8>, a: PeerAction) -> bool {
    if payload.len() == 8 {
        a == PeerAction::SendPong(le_value(payload) as u64)
    } else {
        a == PeerAction::Fail(PeerError::BadPing)
    }
}

fn answer_ping(payload: &[u8]) -> (a: PeerAction)
    ensures
        ping_answer(payload@, a),
{
    match ping_nonce(payload) {
        Ok(n) => PeerAction::SendPong(n),
        Err(_) => PeerAction::Fail(PeerError::BadPing),
    }
}

/// The version handshake with a peer: both sides send `version`, and
/// answer the other's with `verack`.
pub struct Handshake {
    pub got_version: bool,
    pub got_verack: bool,
    pub start_height: i32,
    pub user_agent: String,
}

impl Handshake {
    /// Before any frame: no height, and the user agent "unknown".
    pub fn new() -> (h: Self)
        ensures
            !h.got_version,
            !h.got_verack,
            h.start_height == 0,
            h.user_agent@ == "unknown"@,
    {
        Handshake {
            got_version: false,
            got_verack: false,
            start_height: 0,
            user_agent: String::from_str("unknown"),
        }
    }

    /// Whether both the peer's `version` and its `verack` have arrived.
    pub fn done(&self) -> (r: bool)
        ensures
            r == (self.got_version && self.got_verack),
    {
        self.got_version && self.got_verack
    }

    /// Records the peer's `version`, given as `bitcoin` decoded it (`None`
    /// when it did not decode), and answers it.
    pub fn on_version(&mut self, decoded: Option<(i32, String)>) -> (a: PeerAction)
        ensures
            match decoded {
                None => a == PeerAction::Fail(PeerError::BadVersion) && *final(self) == *old(self),
                Some((h, ua)) => a is SendVerack && final(self).got_version && final(self).start_height == h
                    && final(self).user_agent@ == ua@ && final(self).got_verack == old(self).got_verack,
            },
    {
        match decoded {
            Some((h, ua)) => {
                self.start_height = h;
                self.user_agent = ua;
                self.got_version = true;
                PeerAction::SendVerack
            },
            None => PeerAction::Fail(PeerError::BadVersion),
        }
    }

    /// Handles a frame during the handshake: a `version` is recorded and
    /// answered with `verack`, a `verack` is recorded, a `ping` is answered
    /// with `pong`, and anything else is passed over.
    pub fn on_frame(&mut self, command: &str, payload: &[u8]) -> (a: PeerAction)
        ensures
            command@ == "version"@ ==> match bitcoin_version_message(payload@) {
                None => a == PeerAction::Fail(PeerError::BadVersion) && *final(self) == *old(self),
                Some((h, ua)) => a is SendVerack && final(self).got_version && final(self).start_height == h
                    && final(self).user_agent@ == ua && final(self).got_verack == old(self).got_verack,
            },
            command@ == "verack"@ ==> a is Ignore && final(self).got_verack && final(self).got_version
                == old(self).got_version && final(self).start_height == old(self).start_height
                && final(self).user_agent == old(self).user_agent,
            command@ == "ping"@ ==> ping_answer(payload@, a) && *final(self) == *old(self),
            command@ != "version"@ && command@ != "verack"@ && command@ != "ping"@ ==> a is Ignore
                && *final(self) == *old(self),
    {
        proof {
            reveal_strlit("version");
            reveal_strlit("verack");
            reveal_strlit("ping");
            assert("version"@.len() == 7 && "verack"@.len() == 6 && "ping"@.len() == 4);
            assert("version"@ != "verack"@ && "version"@ != "ping"@ && "verack"@ != "ping"@);
        }
        let c = String::from_str(command);
        if c == String::from_str("version") {
            let decoded = match version_fields(payload) {
                Ok(v) => Some(v),
                Err(_) => None,
            };
            self.on_version(decoded)
        } else if c == String::from_str("verack") {
            self.got_verack = true;
            PeerAction::Ignore
        } else if c == String::from_str("ping") {
            answer_ping(payload)
        } else {
            PeerAction::Ignore
        }
    }
}

/// Handles a frame while waiting for `headers`: the headers are decoded,
/// a `ping` is answered, and anything else is passed over.
pub fn on_headers_reply(command: &str, payload: &[u8]) -> (a: PeerAction)
    ensures
        command@ == "headers"@ ==> match headers_error(payload@) {
            Some(e) => a == PeerAction::Fail(PeerError::Headers(e)),
            None => a matches PeerAction::Headers(hs) && headers_ok(payload@, hs@),
        },
        command@ == "ping"@ ==> ping_answer(payload@, a),
        command@ != "headers"@ && command@ != "ping"@ ==> a is Ignore,
{
    proof {
        reveal_strlit("headers");
        reveal_strlit("ping");
        assert("headers"@.len() == 7 && "ping"@.len() == 4);
        assert("headers"@ != "ping"@);
    }
    let c = String::from_str(command);
    if c == String::from_str("headers") {
        match decode_headers_payload(payload) {
            Ok(hs) => PeerAction::Headers(hs),
            Err(e) => PeerAction::Fail(PeerError::Headers(e)),
        }
    } else if c == String::from_str("ping") {
        answer_ping(payload)
    } else {
        PeerAction::Ignore
    }
}

/// Big-endian bytes of a 32-bit value.
pub open spec fn u32_be_bytes(x: u32) -> Seq<u8> {
    seq![(x >> 24) as u8, (x >> 16) as u8, (x >> 8) as u8, x as u8]
}

/// One row of the holdout file: the header's fields as the file writes
/// them, hashes in explorer order and `bits` as eight hex digits.
pub struct HoldoutRow {
    pub height: u64,
    pub block_hash: String,
    pub header_hex: String,
    pub version: i32,
    pub previous_block_hash: String,
    pub merkle_root: String,
    pub timestamp: u32,
    pub bits: String,
    pub nonce: u32,
    pub x1331: [u8; 11],
    pub verified: bool,
}

/// Why a header cannot become a holdout row.
#[derive(Debug, Clone, Copy, PartialEq, Eq, Structural)]
pub enum RowError {
    /// The header fails the proof of work its own `bits` ask for.
    ProofOfWork { height: u64 },
}

/// `row` is the holdout row of header `h` at `height` whose block hash is `hash`.
pub open spec fn row_fields(row: HoldoutRow, height: u64, h: BlockHeader, hash: Seq<u8>) -> bool {
    &&& row.height == height
    &&& row.block_hash@ == hex_encode_spec(hash.reverse())
    &&& row.header_hex@ == hex_encode_spec(header_bytes(h))
    &&& row.version == h.version
    &&& row.previous_block_hash@ == hex_encode_spec(h.prev_blockhash@.reverse())
    &&& row.merkle_root@ == hex_encode_spec(h.merkle_root@.reverse())
    &&& row.timestamp == h.time
    &&& row.bits@ == hex_encode_spec(u32_be_bytes(h.bits))
    &&& row.nonce == h.nonce
    &&& forall|l: int| 0 <= l < 10 ==> #[trigger] row.x1331@[l] == figure_at(h.nonce, l as nat)
    &&& row.x1331@[10] == h.nonce & 3
    &&& row.verified
}

/// The holdout row of header `h` at `height`, given its proof-of-work
/// verdict and its block hash; refused when the verdict is negative.
pub fn row_from_parts(height: u64, h: &BlockHeader, pow_ok: bool, hash: &[u8; 32]) -> (r: Result<
    HoldoutRow,
    RowError,
>)
    ensures
        r is Ok <==> pow_ok,
        r matches Err(e) ==> e == (RowError::ProofOfWork { height }),
        r matches Ok(row) ==> row_fields(row, height, *h, hash@),
{
    let raw = serialize_header(h);
    if !pow_ok {
        return Err(RowError::ProofOfWork { height });
    }
    let bits_be: Vec<u8> = vec![(h.bits >> 24) as u8, (h.bits >> 16) as u8, (h.bits >> 8) as u8, h.bits as u8];
    assert(bits_be@ =~= u32_be_bytes(h.bits));
    Ok(
        HoldoutRow {
            height,
            block_hash: bitcoin_display_hash(hash),
            header_hex: hex_encode(raw.as_slice()),
            version: h.version,
            previous_block_hash: bitcoin_display_hash(&h.prev_blockhash),
            merkle_root: bitcoin_display_hash(&h.merkle_root),
            timestamp: h.time,
            bits: hex_encode(bits_be.as_slice()),
            nonce: h.nonce,
            x1331: x1331_states(h.nonce),
            verified: true,
        },
    )
}

/// The holdout row of the header at `height`, after checking its proof of work.
pub fn make_row(height: u64, h: &BlockHeader) -> (r: Result<HoldoutRow, RowError>)
    ensures
        r is Ok <==> bitcoin_pow_valid(*h),
        r matches Err(e) ==> e == (RowError::ProofOfWork { height }),
        r matches Ok(row) ==> row_fields(row, height, *h, bitcoin_block_hash(header_bytes(*h))),
{
    let pow_ok = pow_valid(h);
    let hash = block_hash(h);
    row_from_parts(height, h, pow_ok, &hash)
}

} // verus!
