use x1331::p2p::checksum_matches;
use x1331::p2p::decode_headers_payload;
use x1331::p2p::parse_envelope;
use x1331::p2p::read_compact_size;
use x1331::p2p::verify_chain;
use x1331::p2p::BlockHeader;
use x1331::p2p::ChainError;
use x1331::p2p::DecodeError;
use x1331::p2p::FrameError;
use x1331::p2p::Handshake;
use x1331::p2p::PeerAction;
use x1331::p2p::PeerError;
use x1331::p2p::on_headers_reply;
use x1331::p2p::make_row;
use x1331::p2p::check_links;
use x1331::p2p::row_from_parts;
use x1331::dataset::parse_display_hash;
use x1331::p2p::RowError;

fn hex_bytes(s: &str) -> Vec<u8> {
    (0..s.len() / 2).map(|i| u8::from_str_radix(&s[2 * i..2 * i + 2], 16).unwrap()).collect()
}

const GENESIS: &str = "0100000000000000000000000000000000000000000000000000000000000000000000003ba3edfd7a7b12b27ac72c3e67768f617fc81bc3888a51323a9fb8aa4b1e5e4a29ab5f49ffff001d1dac2b7c";

const BLOCK1: &str = "010000006fe28c0ab6f1b372c1a6a246ae63f74f931e8365e15a089c68d6190000000000982051fd1e4ba744bbbe680e1fee14677ba1a3c3540bf7b1cdb606e857233e0e61bc6649ffff001d01e36299";

fn payload(headers: &[&str]) -> Vec<u8> {
    let mut p = vec![headers.len() as u8];
    for h in headers {
        p.extend(hex_bytes(h));
        p.push(0);
    }
    p
}

fn arr32(s: &str) -> [u8; 32] {
    let mut a = [0u8; 32];
    a.copy_from_slice(&hex_bytes(s));
    a
}

#[test]
fn compact_sizes() {
    assert_eq!(read_compact_size(&[0x05], 0), Ok((5, 1)));
    assert_eq!(read_compact_size(&[0xfd, 0x34, 0x12], 0), Ok((0x1234, 3)));
    assert_eq!(read_compact_size(&[0x00, 0xfe, 1, 0, 0, 1], 1), Ok((0x0100_0001, 5)));
    assert_eq!(
        read_compact_size(&[0xff, 1, 0, 0, 0, 2, 0, 0, 0], 0),
        Ok((0x0000_0002_0000_0001, 9))
    );
    assert_eq!(read_compact_size(&[0xfd, 0x34], 0), Err(DecodeError::UnexpectedEnd));
    assert_eq!(read_compact_size(&[], 0), Err(DecodeError::UnexpectedEnd));
    assert_eq!(read_compact_size(&[1, 2], 5), Err(DecodeError::UnexpectedEnd));
}

#[test]
fn headers_payload_decodes_fields() {
    let hs = decode_headers_payload(&payload(&[GENESIS, BLOCK1])).unwrap();
    assert_eq!(hs.len(), 2);
    assert_eq!(hs[0].version, 1);
    assert_eq!(hs[0].prev_blockhash, [0u8; 32]);
    assert_eq!(hs[0].time, 1_231_006_505);
    assert_eq!(hs[0].bits, 0x1d00_ffff);
    assert_eq!(hs[0].nonce, 2_083_236_893);
    assert_eq!(
        hs[1].prev_blockhash,
        arr32("6fe28c0ab6f1b372c1a6a246ae63f74f931e8365e15a089c68d6190000000000")
    );
    assert_eq!(hs[1].nonce, 2_573_394_689);
    assert!(decode_headers_payload(&[0]).unwrap().is_empty());
}

#[test]
fn headers_payload_errors() {
    let mut p = payload(&[GENESIS]);
    p.pop();
    assert!(matches!(decode_headers_payload(&p), Err(DecodeError::UnexpectedEnd)));
    let mut p = payload(&[GENESIS]);
    *p.last_mut().unwrap() = 1;
    assert_eq!(
        decode_headers_payload(&p).unwrap_err(),
        DecodeError::NonZeroTxCount { index: 0, tx_count: 1 }
    );
    let mut p = payload(&[GENESIS]);
    p.push(0);
    assert_eq!(
        decode_headers_payload(&p).unwrap_err(),
        DecodeError::TrailingBytes { consumed: 82, len: 83 }
    );
    let too_many = [0xfd, 0xd1, 0x07];
    assert_eq!(
        decode_headers_payload(&too_many).unwrap_err(),
        DecodeError::TooManyHeaders { count: 2001 }
    );
    assert_eq!(decode_headers_payload(&[]).unwrap_err(), DecodeError::UnexpectedEnd);
}

fn envelope(magic: [u8; 4], cmd: &[u8], len: u32, checksum: [u8; 4]) -> [u8; 24] {
    let mut e = [0u8; 24];
    e[..4].copy_from_slice(&magic);
    e[4..4 + cmd.len()].copy_from_slice(cmd);
    e[16..20].copy_from_slice(&len.to_le_bytes());
    e[20..].copy_from_slice(&checksum);
    e
}

#[test]
fn envelope_parsing() {
    let magic = [0xf9, 0xbe, 0xb4, 0xd9];
    let e = envelope(magic, b"headers", 163, [0; 4]);
    assert_eq!(parse_envelope(&e), Ok((b"headers".to_vec(), 163)));
    let full = envelope(magic, b"abcdefghijkl", 0, [0; 4]);
    assert_eq!(parse_envelope(&full), Ok((b"abcdefghijkl".to_vec(), 0)));
    let bad = envelope([0x0b, 0x11, 0x09, 0x07], b"verack", 0, [0; 4]);
    assert_eq!(parse_envelope(&bad), Err(FrameError::BadMagic));
    let big = envelope(magic, b"block", 32 * 1024 * 1024 + 1, [0; 4]);
    assert_eq!(parse_envelope(&big), Err(FrameError::PayloadTooLarge { len: 32 * 1024 * 1024 + 1 }));
    let max = envelope(magic, b"block", 32 * 1024 * 1024, [0; 4]);
    assert_eq!(parse_envelope(&max), Ok((b"block".to_vec(), 32 * 1024 * 1024)));
}

#[test]
fn checksum_of_payloads() {
    let magic = [0xf9, 0xbe, 0xb4, 0xd9];
    let e = envelope(magic, b"verack", 0, [0x5d, 0xf6, 0xe0, 0xe2]);
    assert!(checksum_matches(&e, &[]));
    assert!(!checksum_matches(&e, &[0]));
}

#[test]
fn chain_of_first_two_blocks() {
    let hs: Vec<BlockHeader> = decode_headers_payload(&payload(&[GENESIS, BLOCK1])).unwrap();
    let tip = verify_chain(&hs, [0u8; 32], 2).unwrap();
    assert_eq!(tip, arr32("4860eb18bf1b1620e37e9490fc8a427514416fd75159ab86688e9a8300000000"));
    let first = verify_chain(&hs, [0u8; 32], 1).unwrap();
    assert_eq!(first, arr32("6fe28c0ab6f1b372c1a6a246ae63f74f931e8365e15a089c68d6190000000000"));
    assert_eq!(verify_chain(&hs, [1u8; 32], 2), Err(ChainError::Broken { index: 0 }));
    assert_eq!(verify_chain(&hs, [7u8; 32], 0), Ok([7u8; 32]));
}

#[test]
fn chain_rejects_bad_work() {
    let mut hs: Vec<BlockHeader> = decode_headers_payload(&payload(&[GENESIS, BLOCK1])).unwrap();
    hs[1].nonce = 0;
    assert_eq!(verify_chain(&hs, [0u8; 32], 2), Err(ChainError::BadProofOfWork { index: 1 }));
    let reordered = vec![hs[1], hs[0]];
    assert_eq!(verify_chain(&reordered, [0u8; 32], 2), Err(ChainError::Broken { index: 0 }));
}

fn version_payload(user_agent: &str, height: i32) -> Vec<u8> {
    let mut p = Vec::new();
    p.extend_from_slice(&70016u32.to_le_bytes());
    p.extend_from_slice(&1u64.to_le_bytes());
    p.extend_from_slice(&1_700_000_000i64.to_le_bytes());
    for _ in 0..2 {
        p.extend_from_slice(&0u64.to_le_bytes());
        p.extend_from_slice(&[0u8; 16]);
        p.extend_from_slice(&8333u16.to_be_bytes());
    }
    p.extend_from_slice(&42u64.to_le_bytes());
    p.push(user_agent.len() as u8);
    p.extend_from_slice(user_agent.as_bytes());
    p.extend_from_slice(&height.to_le_bytes());
    p.push(1);
    p
}

#[test]
fn handshake_records_peer_version() {
    let mut h = Handshake::new();
    assert_eq!(h.user_agent, "unknown");
    assert!(!h.done());
    assert!(matches!(h.on_frame("sendheaders", &[]), PeerAction::Ignore));
    assert!(matches!(h.on_frame("version", &[1, 2, 3]), PeerAction::Fail(PeerError::BadVersion)));
    assert!(!h.got_version);
    let p = version_payload("/Satoshi:27.0.0/", 850_000);
    assert!(matches!(h.on_frame("version", &p), PeerAction::SendVerack));
    assert_eq!(h.start_height, 850_000);
    assert_eq!(h.user_agent, "/Satoshi:27.0.0/");
    assert!(!h.done());
    match h.on_frame("ping", &7u64.to_le_bytes()) {
        PeerAction::SendPong(n) => assert_eq!(n, 7),
        _ => panic!("expected a pong"),
    }
    assert!(matches!(h.on_frame("ping", &[1, 2]), PeerAction::Fail(PeerError::BadPing)));
    assert!(matches!(h.on_frame("verack", &[]), PeerAction::Ignore));
    assert!(h.done());
}

#[test]
fn headers_replies() {
    match on_headers_reply("headers", &payload(&[GENESIS])) {
        PeerAction::Headers(hs) => assert_eq!(hs[0].nonce, 2_083_236_893),
        _ => panic!("expected headers"),
    }
    assert!(matches!(
        on_headers_reply("headers", &[]),
        PeerAction::Fail(PeerError::Headers(DecodeError::UnexpectedEnd))
    ));
    match on_headers_reply("ping", &0x0102u64.to_le_bytes()) {
        PeerAction::SendPong(n) => assert_eq!(n, 0x0102),
        _ => panic!("expected a pong"),
    }
    assert!(matches!(on_headers_reply("inv", &[1]), PeerAction::Ignore));
}

#[test]
fn holdout_row_of_block_one() {
    let hs: Vec<BlockHeader> = decode_headers_payload(&payload(&[GENESIS, BLOCK1])).unwrap();
    let row = make_row(1, &hs[1]).unwrap();
    assert_eq!(row.height, 1);
    assert_eq!(row.block_hash, "00000000839a8e6886ab5951d76f411475428afc90947ee320161bbf18eb6048");
    assert_eq!(row.header_hex, BLOCK1);
    assert_eq!(row.version, 1);
    assert_eq!(row.previous_block_hash, "000000000019d6689c085ae165831e934ff763ae46a2a6c172b3f1b60a8ce26f");
    assert_eq!(row.merkle_root, "0e3e2357e806b6cdb1f70b54c3a3a17b6714ee1f0e68bebb44a74b1efd512098");
    assert_eq!(row.timestamp, 1231469665);
    assert_eq!(row.bits, "1d00ffff");
    assert_eq!(row.nonce, 2573394689);
    assert_eq!(row.x1331, [4, 6, 2, 6, 1, 3, 4, 3, 0, 0, 1]);
    assert!(row.verified);
}

#[test]
fn holdout_row_refuses_bad_work() {
    let mut hs: Vec<BlockHeader> = decode_headers_payload(&payload(&[GENESIS])).unwrap();
    hs[0].nonce = 0;
    assert!(matches!(make_row(7, &hs[0]), Err(RowError::ProofOfWork { height: 7 })));
}

#[test]
fn holdout_row_follows_bitcoin_target() {
    let hs: Vec<BlockHeader> = decode_headers_payload(&payload(&[GENESIS])).unwrap();
    let mut h = hs[0];
    // Exponent 0x21: the mantissa moves up 240 bits, far above this hash.
    h.bits = 0x2100ffff;
    assert!(make_row(3, &h).is_ok());
    // Exponent 0x22: a 248-bit shift keeps only the mantissa's low byte on top.
    h.bits = 0x2200ffff;
    assert!(make_row(3, &h).is_ok());
    // Exponent 0x23: the 256-bit shift wraps to none, leaving 0xffff.
    h.bits = 0x2300ffff;
    assert!(matches!(make_row(3, &h), Err(RowError::ProofOfWork { height: 3 })));
    // A set sign bit gives the zero target.
    h.bits = 0x1d80ffff;
    assert!(matches!(make_row(3, &h), Err(RowError::ProofOfWork { height: 3 })));
}

#[test]
fn chain_links_with_given_answers() {
    let hs: Vec<BlockHeader> = decode_headers_payload(&payload(&[GENESIS, BLOCK1])).unwrap();
    let h0 = parse_display_hash("000000000019d6689c085ae165831e934ff763ae46a2a6c172b3f1b60a8ce26f").unwrap();
    let h1 = [7u8; 32];
    assert_eq!(check_links(&hs, [0u8; 32], &vec![true, true], &vec![h0, h1], 2), Ok(h1));
    assert_eq!(check_links(&hs, [0u8; 32], &vec![true, false], &vec![h0, h1], 2), Err(ChainError::BadProofOfWork { index: 1 }));
    assert_eq!(check_links(&hs, [0u8; 32], &vec![true, true], &vec![[1u8; 32], h1], 2), Err(ChainError::Broken { index: 1 }));
    assert_eq!(check_links(&hs, [0u8; 32], &vec![true, false], &vec![h0, h1], 1), Ok(h0));
    assert_eq!(check_links(&hs, [9u8; 32], &vec![], &vec![], 0), Ok([9u8; 32]));
}

#[test]
fn holdout_row_from_given_answers() {
    let hs: Vec<BlockHeader> = decode_headers_payload(&payload(&[BLOCK1])).unwrap();
    let mut hash = [0u8; 32];
    hash[0] = 0x01;
    hash[31] = 0xfe;
    let row = row_from_parts(12, &hs[0], true, &hash).unwrap();
    assert_eq!(row.height, 12);
    assert_eq!(row.block_hash, format!("fe{}01", "00".repeat(30)));
    assert_eq!(row.header_hex, BLOCK1);
    assert!(matches!(row_from_parts(12, &hs[0], false, &hash), Err(RowError::ProofOfWork { height: 12 })));
}

#[test]
fn handshake_version_given_decoded() {
    let mut hs = Handshake::new();
    assert!(matches!(hs.on_version(None), PeerAction::Fail(PeerError::BadVersion)));
    assert!(!hs.got_version);
    assert_eq!(hs.user_agent, "unknown");
    assert!(matches!(hs.on_version(Some((812_000, "/Satoshi:27.0.0/".to_string()))), PeerAction::SendVerack));
    assert!(hs.got_version);
    assert!(!hs.got_verack);
    assert_eq!(hs.start_height, 812_000);
    assert_eq!(hs.user_agent, "/Satoshi:27.0.0/");
}
