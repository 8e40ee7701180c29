use x1331::stratum::build_header;
use x1331::stratum::build_header_with_extranonce2;
use x1331::stratum::canonical_prevhash;
use x1331::stratum::decode_hex_80;
use x1331::stratum::extranonce2_hex;
use x1331::stratum::job_offset;
use x1331::stratum::nonce_from_header;
use x1331::stratum::nonce_submit_hex;
use x1331::stratum::stratum_prevhash_to_header;
use x1331::stratum::DecodeHexError;
use x1331::stratum::Extranonce2SizeError;
use x1331::stratum::HeaderError;
use x1331::stratum::HexFieldError;
use x1331::stratum::NotifyParams;
use x1331::stratum::PrevhashError;

fn hex_bytes(s: &str) -> Vec<u8> {
    (0..s.len() / 2).map(|i| u8::from_str_radix(&s[2 * i..2 * i + 2], 16).unwrap()).collect()
}

fn to_hex(b: &[u8]) -> String {
    b.iter().map(|x| format!("{:02x}", x)).collect()
}

fn params() -> NotifyParams {
    NotifyParams {
        prevhash: to_hex(&(0u8..32).collect::<Vec<u8>>()),
        coinb1: "01000000".to_string(),
        coinb2: "ffffffff".to_string(),
        merkle_branches: vec!["11".repeat(32), "22".repeat(32)],
        version: "20000000".to_string(),
        nbits: "1d00ffff".to_string(),
        ntime: "5f5e1000".to_string(),
    }
}

const EXPECTED_HEADER: &str = "0000002003020100070605040b0a09080f0e0d0c13121110171615141b1a19181f1e1d1cbf405fed0d1dbf47c5b25c46a68871cde9ef8b6c6ef8bb0ecdc68477581c2a5e00105e5fffff001d00000000";

#[test]
fn prevhash_words_are_byte_swapped() {
    let v: Vec<u8> = (0u8..32).collect();
    let out = stratum_prevhash_to_header(v.clone()).unwrap();
    assert_eq!(&out[..8], &[3, 2, 1, 0, 7, 6, 5, 4]);
    let back = stratum_prevhash_to_header(out.to_vec()).unwrap();
    assert_eq!(back.to_vec(), v);
}

#[test]
fn prevhash_wrong_length() {
    assert_eq!(stratum_prevhash_to_header(vec![0u8; 31]), Err(PrevhashError { len: 31 }));
    assert_eq!(stratum_prevhash_to_header(Vec::new()), Err(PrevhashError { len: 0 }));
}

#[test]
fn nonce_hex_is_eight_lower_digits() {
    assert_eq!(nonce_submit_hex(0), "00000000");
    assert_eq!(nonce_submit_hex(0xDEAD_BEEF), "deadbeef");
    assert_eq!(nonce_submit_hex(0x1a), "0000001a");
}

#[test]
fn extranonce2_hex_big_endian() {
    assert_eq!(extranonce2_hex(5, 4), Ok("00000005".to_string()));
    assert_eq!(extranonce2_hex(0x0102_0304_0506_0708, 8), Ok("0102030405060708".to_string()));
    assert_eq!(extranonce2_hex(0x1ff, 1), Ok("ff".to_string()));
    assert_eq!(extranonce2_hex(1, 0), Err(Extranonce2SizeError { size: 0 }));
    assert_eq!(extranonce2_hex(1, 9), Err(Extranonce2SizeError { size: 9 }));
}

#[test]
fn job_offset_mixes_id_and_header() {
    let genesis = hex_bytes("0100000000000000000000000000000000000000000000000000000000000000000000003ba3edfd7a7b12b27ac72c3e67768f617fc81bc3888a51323a9fb8aa4b1e5e4a29ab5f49ffff001d1dac2b7c");
    let mut h = [0u8; 80];
    h.copy_from_slice(&genesis);
    assert_eq!(job_offset("abc", &h), 0xe068_8564);
    assert_eq!(job_offset("", &[0u8; 80]), 0x1331_1331);
}

#[test]
fn header_from_notify_job() {
    let (header, ex2) = build_header("abcd", 4, &params()).unwrap();
    assert_eq!(ex2, "00000000");
    assert_eq!(to_hex(&header), EXPECTED_HEADER);
}

#[test]
fn header_with_given_extranonce2() {
    let header = build_header_with_extranonce2("abcd", "00000000", &params()).unwrap();
    assert_eq!(to_hex(&header), EXPECTED_HEADER);
    let other = build_header_with_extranonce2("abcd", "00000005", &params()).unwrap();
    assert_eq!(
        to_hex(&other),
        "0000002003020100070605040b0a09080f0e0d0c13121110171615141b1a19181f1e1d1caaea974966661a36b4a196e3779e14dd0c1f1a35e6fdda12437f02e3e7cc50dc00105e5fffff001d00000000"
    );
}

#[test]
fn header_errors() {
    assert_eq!(build_header("abc", 4, &params()), Err(HeaderError::Hex));
    assert_eq!(build_header_with_extranonce2("abcd", "zz", &params()), Err(HeaderError::Hex));
    let mut p = params();
    p.merkle_branches.push("33".repeat(31));
    assert_eq!(build_header("abcd", 4, &p), Err(HeaderError::MerkleBranchLength));
    let mut p = params();
    p.merkle_branches.push("xy".to_string());
    assert_eq!(build_header("abcd", 4, &p), Err(HeaderError::Hex));
    let mut p = params();
    p.prevhash = "00".repeat(31);
    assert_eq!(build_header("abcd", 4, &p), Err(HeaderError::PrevhashLength));
    let mut p = params();
    p.version = "2000".to_string();
    assert_eq!(build_header("abcd", 4, &p), Err(HeaderError::FieldLength));
    let mut p = params();
    p.ntime = "5f5e10".to_string();
    assert_eq!(build_header("abcd", 4, &p), Err(HeaderError::FieldLength));
    let mut p = params();
    p.nbits = "1d00fff".to_string();
    assert_eq!(build_header("abcd", 4, &p), Err(HeaderError::Hex));
}

#[test]
fn decode_header_hex() {
    let h = decode_hex_80(EXPECTED_HEADER).unwrap();
    assert_eq!(h.to_vec(), hex_bytes(EXPECTED_HEADER));
    assert_eq!(decode_hex_80("00"), Err(DecodeHexError::Length { len: 2 }));
    let mut bad = EXPECTED_HEADER.to_string();
    bad.replace_range(10..12, "g0");
    assert_eq!(decode_hex_80(&bad), Err(DecodeHexError::InvalidDigit { index: 5 }));
    let mut plus = EXPECTED_HEADER.to_string();
    plus.replace_range(0..2, "+a");
    assert_eq!(decode_hex_80(&plus).unwrap()[0], 0x0a);
    let upper = EXPECTED_HEADER.to_uppercase();
    assert_eq!(decode_hex_80(&upper).unwrap(), h);
}

#[test]
fn nonce_of_header_hex() {
    let mut hexed = EXPECTED_HEADER.to_string();
    hexed.replace_range(152..160, "1dac2b7c");
    assert_eq!(nonce_from_header(&hexed), Ok(2_083_236_893));
    assert_eq!(nonce_from_header("0011"), Err(HexFieldError::Length { len: 2 }));
    assert_eq!(nonce_from_header("0g"), Err(HexFieldError::Hex));
    assert_eq!(nonce_from_header("000"), Err(HexFieldError::Hex));
}

#[test]
fn canonical_prevhash_display_order() {
    let stratum = to_hex(&(0u8..32).collect::<Vec<u8>>());
    assert_eq!(
        canonical_prevhash(&stratum),
        Ok("1c1d1e1f18191a1b14151617101112130c0d0e0f08090a0b0405060700010203".to_string())
    );
    assert_eq!(canonical_prevhash("00"), Err(HexFieldError::Length { len: 1 }));
    assert_eq!(canonical_prevhash("zz"), Err(HexFieldError::Hex));
}

#[test]
fn display_order_is_its_own_inverse() {
    let stratum = to_hex(&(0u8..32).map(|x| x.wrapping_mul(37)).collect::<Vec<u8>>());
    let once = canonical_prevhash(&stratum).unwrap();
    assert_eq!(canonical_prevhash(&once).unwrap(), stratum);
    let upper = canonical_prevhash(&stratum.to_uppercase()).unwrap();
    assert_eq!(upper, once);
}
