use base64::prelude::BASE64_STANDARD;
use base64::Engine;
use hackattic::certificate::{
    country_code, encode_certificate, generate_certificate, serial_digits, squash,
    CertificateError, RequiredData, VALIDITY_DAYS,
};
use openssl::asn1::Asn1Time;
use openssl::nid::Nid;
use openssl::pkey::PKey;
use openssl::rsa::Rsa;
use openssl::x509::X509;
use hackattic::encoding::{from_base64, to_base64, MAX_ENCODE_LEN};
use hackattic::hashing::{
    hash_password, hmac, pbkdf2, scrypt, scrypt_takes, sha256, HashError, HashRequest, MAX_KEY_LEN,
};
use hackattic::hex::{hex_to_bytes, hexlify, HexError};
use hackattic::miner::{check_minimum_zero_bits, digest_shows_work, has_zero_prefix, Mining};
use hackattic::unpack::{unpack, unpack_base64, UnpackError, Unpacked};
use sha2::{Digest, Sha256};

fn reference_hex_to_bytes(text: &str) -> Option<Vec<u8>> {
    if text.len() % 2 != 0 {
        return None;
    }
    let mut out = Vec::new();
    for i in (0..text.len()).step_by(2) {
        if !text.is_char_boundary(i) || !text.is_char_boundary(i + 2) {
            return None;
        }
        out.push(u8::from_str_radix(&text[i..i + 2], 16).ok()?);
    }
    Some(out)
}

fn block_with_nonce(nonce: u64) -> String {
    format!("{{\"data\":[[\"payload\",7]],\"nonce\":{}}}", nonce)
}

fn leading_zero_bits(bytes: &[u8]) -> u32 {
    let mut bits = 0;
    for byte in bytes {
        if *byte == 0 {
            bits += 8;
        } else {
            return bits + byte.leading_zeros();
        }
    }
    bits
}

fn record_bytes() -> Vec<u8> {
    let mut bytes = Vec::new();
    bytes.extend_from_slice(&(-2i32).to_le_bytes());
    bytes.extend_from_slice(&0xdead_beefu32.to_le_bytes());
    bytes.extend_from_slice(&(-3i16).to_le_bytes());
    bytes.extend_from_slice(&[0xaa, 0xbb]);
    bytes.extend_from_slice(&1.5f32.to_le_bytes());
    bytes.extend_from_slice(&2.5f64.to_le_bytes());
    bytes.extend_from_slice(&(-1.0f64).to_be_bytes());
    bytes
}

fn request<'a>(password: &'a str, salt: &'a str) -> HashRequest<'a> {
    HashRequest {
        password,
        salt,
        pbkdf2_rounds: 2,
        pbkdf2_hash: "sha256",
        scrypt_log_n: 4,
        scrypt_r: 1,
        scrypt_p: 1,
        scrypt_len: 64,
    }
}

fn required(country: &str, serial: &str) -> RequiredData {
    RequiredData {
        domain: String::from("example.org"),
        serial_number: String::from(serial),
        country: String::from(country),
    }
}

#[test]
fn hex_to_bytes_reads_digits_of_either_case() {
    assert_eq!(hex_to_bytes("00ff10"), Ok(vec![0x00, 0xff, 0x10]));
    assert_eq!(hex_to_bytes("AbCdEf"), Ok(vec![0xab, 0xcd, 0xef]));
    assert_eq!(hex_to_bytes(""), Ok(Vec::new()));
}

#[test]
fn hex_to_bytes_refuses_an_odd_length_first() {
    assert_eq!(hex_to_bytes("abc"), Err(HexError::OddLength));
    assert_eq!(hex_to_bytes("zzz"), Err(HexError::OddLength));
    assert_eq!(hex_to_bytes("0"), Err(HexError::OddLength));
}

#[test]
fn hex_to_bytes_refuses_what_is_no_digit() {
    assert_eq!(hex_to_bytes("zz"), Err(HexError::InvalidDigit));
    assert_eq!(hex_to_bytes("0g"), Err(HexError::InvalidDigit));
    assert_eq!(hex_to_bytes("-1"), Err(HexError::InvalidDigit));
    assert_eq!(hex_to_bytes("1+"), Err(HexError::InvalidDigit));
    assert_eq!(hex_to_bytes("++"), Err(HexError::InvalidDigit));
    assert_eq!(hex_to_bytes(" 1"), Err(HexError::InvalidDigit));
    assert_eq!(hex_to_bytes("\u{e9}"), Err(HexError::InvalidDigit));
    assert_eq!(hex_to_bytes("a\u{e9}1"), Err(HexError::InvalidDigit));
}

#[test]
fn hex_to_bytes_takes_a_plus_sign_before_one_digit() {
    assert_eq!(hex_to_bytes("+f"), Ok(vec![0x0f]));
    assert_eq!(hex_to_bytes("10+a"), Ok(vec![0x10, 0x0a]));
}

#[test]
fn hex_to_bytes_agrees_with_radix_parsing() {
    let symbols = ['0', '9', 'a', 'F', 'g', '+', '-', ' ', '\u{e9}'];
    for a in symbols {
        for b in symbols {
            for c in symbols {
                for d in symbols {
                    let text: String = [a, b, c, d].iter().collect();
                    assert_eq!(hex_to_bytes(&text).ok(), reference_hex_to_bytes(&text), "{:?}", text);
                    let short: String = [a, b].iter().collect();
                    assert_eq!(hex_to_bytes(&short).ok(), reference_hex_to_bytes(&short), "{:?}", short);
                }
            }
        }
    }
}

#[test]
fn hexlify_writes_two_lowercase_digits_per_byte() {
    assert_eq!(hexlify(&[0x00, 0xff, 0x10, 0xab]), "00ff10ab");
    assert_eq!(hexlify(&[]), "");
    assert_eq!(hexlify(&[0x0a]), "0a");
}

#[test]
fn hexlify_and_hex_to_bytes_round_trip() {
    let all: Vec<u8> = (0..=255).collect();
    let text = hexlify(&all);
    assert_eq!(text.len(), 512);
    assert_eq!(hex_to_bytes(&text), Ok(all));
}

#[test]
fn check_minimum_zero_bits_counts_from_the_top_bit() {
    assert!(check_minimum_zero_bits(&[0x00, 0x00, 0x0f], 20));
    assert!(!check_minimum_zero_bits(&[0x00, 0x00, 0x0f], 21));
    assert!(check_minimum_zero_bits(&[0x00, 0x7f], 9));
    assert!(!check_minimum_zero_bits(&[0x00, 0x80], 9));
    assert!(check_minimum_zero_bits(&[0xff], 0));
    assert!(check_minimum_zero_bits(&[0x00, 0xff], 8));
    assert!(!check_minimum_zero_bits(&[0x01, 0x00], 8));
    assert!(!check_minimum_zero_bits(&[0x01], 64));
    assert!(check_minimum_zero_bits(&[0x01], 7));
}

#[test]
fn has_zero_prefix_agrees_and_handles_short_input() {
    let samples: [&[u8]; 6] = [&[], &[0], &[0, 0], &[0, 1], &[0x10, 0], &[0, 0, 0x40]];
    for bytes in samples {
        for n in 0..40u16 {
            let expected = u32::from(n) <= 8 * bytes.len() as u32
                && leading_zero_bits(bytes) >= u32::from(n);
            assert_eq!(has_zero_prefix(bytes, n), expected, "{:?} {}", bytes, n);
            let decidable = usize::from(n / 8) < bytes.len() || bytes.iter().any(|b| *b != 0);
            if decidable {
                assert_eq!(check_minimum_zero_bits(bytes, n), expected, "{:?} {}", bytes, n);
            }
        }
    }
}

#[test]
fn digest_shows_work_reads_hexadecimal() {
    assert!(digest_shows_work("000fab", 12));
    assert!(!digest_shows_work("000fab", 13));
    assert!(!digest_shows_work("000fa", 4));
    assert!(!digest_shows_work("00zz", 4));
    assert!(digest_shows_work("", 0));
    assert!(!digest_shows_work("", 1));
}

#[test]
fn mining_step_keeps_a_nonce_whose_block_shows_work() {
    assert_eq!(Mining::start(), Mining::Trying(0));
    assert_eq!(Mining::Trying(5).step("hello", 2), Mining::Mined(5));
    assert_eq!(Mining::Trying(5).step("hello", 3), Mining::Trying(6));
    assert_eq!(Mining::Trying(u64::MAX).step("hello", 3), Mining::Barren);
    assert_eq!(Mining::Trying(u64::MAX).step("hello", 2), Mining::Mined(u64::MAX));
    assert_eq!(Mining::Mined(9).step("hello", 200), Mining::Mined(9));
    assert_eq!(Mining::Barren.step("hello", 0), Mining::Barren);
}

#[test]
fn mining_finds_the_first_nonce_that_shows_work() {
    let difficulty = 9;
    let mut state = Mining::start();
    while let Mining::Trying(nonce) = state {
        state = state.step(&block_with_nonce(nonce), difficulty);
    }
    let Mining::Mined(found) = state else {
        panic!("{:?}", state);
    };
    for nonce in 0..=found {
        let digest = Sha256::digest(block_with_nonce(nonce).as_bytes());
        assert_eq!(leading_zero_bits(&digest) >= u32::from(difficulty), nonce == found);
    }
}

#[test]
fn unpack_reads_the_record() {
    let record = unpack(&record_bytes()).unwrap();
    assert_eq!(record.int, -2);
    assert_eq!(record.uint, 0xdead_beef);
    assert_eq!(record.short, -3);
    assert_eq!(record.float_bits, 0x3fc0_0000);
    assert_eq!(record.double_bits, 0x4004_0000_0000_0000);
    assert_eq!(record.big_endian_double_bits, 0xbff0_0000_0000_0000);
    assert_eq!(f32::from_bits(record.float_bits), 1.5);
    assert_eq!(f64::from_bits(record.double_bits), 2.5);
    assert_eq!(f64::from_bits(record.big_endian_double_bits), -1.0);
}

#[test]
fn unpack_reads_extreme_values() {
    let mut bytes = vec![0u8; 32];
    bytes[3] = 0x80;
    bytes[9] = 0x80;
    for byte in &mut bytes[4..8] {
        *byte = 0xff;
    }
    assert_eq!(
        unpack(&bytes),
        Ok(Unpacked {
            int: i32::MIN,
            uint: u32::MAX,
            short: i16::MIN,
            float_bits: 0,
            double_bits: 0,
            big_endian_double_bits: 0,
        })
    );
    let ones = vec![0xffu8; 32];
    assert_eq!(
        unpack(&ones),
        Ok(Unpacked {
            int: -1,
            uint: u32::MAX,
            short: -1,
            float_bits: u32::MAX,
            double_bits: u64::MAX,
            big_endian_double_bits: u64::MAX,
        })
    );
    let mut positive = vec![0u8; 32];
    positive[0] = 0xff;
    positive[1] = 0xff;
    positive[2] = 0xff;
    positive[3] = 0x7f;
    positive[8] = 0xff;
    positive[9] = 0x7f;
    positive[24] = 0x01;
    positive[31] = 0x02;
    let record = unpack(&positive).unwrap();
    assert_eq!(record.int, i32::MAX);
    assert_eq!(record.short, i16::MAX);
    assert_eq!(record.big_endian_double_bits, 0x0100_0000_0000_0002);
}

#[test]
fn unpack_ignores_bytes_after_the_record() {
    let mut bytes = record_bytes();
    let expected = unpack(&bytes);
    bytes.extend_from_slice(&[1, 2, 3]);
    assert_eq!(unpack(&bytes), expected);
}

#[test]
fn unpack_refuses_a_short_record() {
    let bytes = record_bytes();
    assert_eq!(unpack(&bytes[..31]), Err(UnpackError::TooShort));
    assert_eq!(unpack(&[]), Err(UnpackError::TooShort));
}

#[test]
fn unpack_base64_decodes_first() {
    let text = BASE64_STANDARD.encode(record_bytes());
    assert_eq!(unpack_base64(&text), unpack(&record_bytes()));
    assert_eq!(unpack_base64("!!!"), Err(UnpackError::NotBase64));
    assert_eq!(unpack_base64("AAAA"), Err(UnpackError::TooShort));
}

#[test]
fn base64_goes_both_ways() {
    assert_eq!(from_base64("aGVsbG8gd29ybGQ="), Some(b"hello world".to_vec()));
    assert_eq!(from_base64(""), Some(Vec::new()));
    assert_eq!(from_base64("aGVsbG8gd29ybGQ"), None);
    assert_eq!(from_base64("a GVs"), None);
    assert_eq!(to_base64(b"hello world"), Some(String::from("aGVsbG8gd29ybGQ=")));
    assert_eq!(to_base64(&[]), Some(String::new()));
    assert_eq!(to_base64(&[0xfb, 0xff]), Some(String::from("+/8=")));
    assert!(MAX_ENCODE_LEN > 0x3000_0000);
}

#[test]
fn base64_text_reads_back_as_the_bytes() {
    let all: Vec<u8> = (0..=255).collect();
    for len in 0..all.len() {
        let text = to_base64(&all[..len]).unwrap();
        assert_eq!(text.len(), (len + 2) / 3 * 4);
        assert_eq!(from_base64(&text), Some(all[..len].to_vec()));
    }
}

#[test]
fn sha256_matches_a_known_digest() {
    assert_eq!(
        hexlify(&sha256("hello")),
        "2cf24dba5fb0a30e26e83b2ac5b9e29e1b161e5c1fa7425e73043362938b9824"
    );
    assert_eq!(
        hexlify(&sha256("")),
        "e3b0c44298fc1c149afbf4c8996fb92427ae41e4649b934ca495991b7852b855"
    );
}

#[test]
fn hmac_is_keyed_by_the_salt() {
    assert_eq!(
        hexlify(&hmac("The quick brown fox jumps over the lazy dog", b"key")),
        "f7bc83f430538424b13298e6aa6fb143ef4d59a14946175997479dbc2d1a3cd8"
    );
    assert_ne!(hmac("key", b"The quick brown fox jumps over the lazy dog"), hmac(
        "The quick brown fox jumps over the lazy dog",
        b"key"
    ));
}

#[test]
fn pbkdf2_matches_known_keys() {
    assert_eq!(
        pbkdf2("password", b"salt", 1, "sha256", 32).map(|key| hexlify(&key)),
        Ok(String::from("120fb6cffcf8b32c43e7225256c4f837a86548c92ccc35480805987cb70be17b"))
    );
    assert_eq!(
        pbkdf2("password", b"salt", 2, "sha256", 32).map(|key| hexlify(&key)),
        Ok(String::from("ae4d0c95af6b46d32d0adff928f06dd02a303f8ef3c251dfd6e2d85a95474c43"))
    );
    assert_eq!(
        pbkdf2("passwd", b"salt", 1, "sha256", 64).map(|key| hexlify(&key)),
        Ok(String::from(
            "55ac046e56e3089fec1691c22544b605f94185216dde0465e68b9d57c20dacbc\
             49ca9cccf179b645991664b39d77ef317c71b845b1e30bd509112041d3a19783"
        ))
    );
}

#[test]
fn pbkdf2_gives_the_asked_length_and_shorter_keys_start_longer_ones() {
    let long = pbkdf2("password", b"salt", 3, "sha256", 100).unwrap();
    assert_eq!(long.len(), 100);
    for len in [0, 1, 20, 31, 32, 33, 64, 99] {
        let short = pbkdf2("password", b"salt", 3, "sha256", len).unwrap();
        assert_eq!(short.len(), len);
        assert_eq!(short, long[..len]);
    }
}

#[test]
fn pbkdf2_knows_no_other_hash() {
    assert_eq!(pbkdf2("password", b"salt", 1, "sha512", 32), Err(HashError::UnsupportedHash));
    assert_eq!(pbkdf2("password", b"salt", 1, "SHA256", 32), Err(HashError::UnsupportedHash));
    assert_eq!(pbkdf2("password", b"salt", 1, "", 32), Err(HashError::UnsupportedHash));
    assert_eq!(pbkdf2("password", b"salt", 1, "sha2567", 32), Err(HashError::UnsupportedHash));
}

#[test]
fn pbkdf2_refuses_a_key_it_cannot_number() {
    assert_eq!(MAX_KEY_LEN, 137_438_953_440);
    assert_eq!(
        pbkdf2("password", b"salt", 1, "sha256", usize::MAX),
        Err(HashError::KeyTooLong)
    );
    assert_eq!(
        pbkdf2("password", b"salt", 1, "sha256", isize::MAX as usize),
        Err(HashError::KeyTooLong)
    );
    if usize::BITS == 64 {
        assert_eq!(
            pbkdf2("password", b"salt", 1, "sha256", 137_438_953_441u64 as usize),
            Err(HashError::KeyTooLong)
        );
    }
    assert_eq!(
        pbkdf2("password", b"salt", 1, "md5", usize::MAX),
        Err(HashError::UnsupportedHash)
    );
}

#[test]
fn scrypt_takes_what_fits() {
    assert!(scrypt_takes(4, 1, 1, 64));
    assert!(scrypt_takes(0, 1, 1, 1));
    assert!(scrypt_takes(17, 8, 1, 32));
    assert!(!scrypt_takes(4, 1, 1, 0));
    assert!(!scrypt_takes(4, 0, 1, 64));
    assert!(!scrypt_takes(4, 1, 0, 64));
    assert!(!scrypt_takes(64, 1, 1, 64));
    assert!(!scrypt_takes(4, 0x8000, 0x8000, 64));
    assert!(scrypt_takes(4, 0x7fff, 0x8000, 64));
    assert!(!scrypt_takes(4, 1, 1, usize::MAX));
    if usize::BITS == 64 {
        assert!(scrypt_takes(4, 1, 1, 137_438_953_440u64 as usize));
        assert!(!scrypt_takes(4, 1, 1, 137_438_953_441u64 as usize));
        assert!(scrypt_takes(55, 1, 1, 64));
        assert!(!scrypt_takes(56, 1, 1, 64));
        assert!(!scrypt_takes(31, 1 << 25, 1, 64));
        assert!(scrypt_takes(30, 1 << 25, 1, 64));
    }
}

#[test]
fn digests_and_tags_have_32_bytes() {
    for text in ["", "a", "The quick brown fox jumps over the lazy dog"] {
        assert_eq!(sha256(text).len(), 32);
        assert_eq!(hmac(text, b"").len(), 32);
        assert_eq!(hmac(text, &[7u8; 200]).len(), 32);
    }
}

#[test]
fn scrypt_matches_known_keys() {
    assert_eq!(
        scrypt("", b"", 4, 1, 1, 64).map(|key| hexlify(&key)),
        Ok(String::from(
            "77d6576238657b203b19ca42c18a0497f16b4844e3074ae8dfdffa3fede21442\
             fcd0069ded0948f8326a753a0fc81f17e8d3e0fb2e0d3628cf35e20c38d18906"
        ))
    );
    assert_eq!(
        scrypt("password", b"NaCl", 10, 8, 16, 64).map(|key| hexlify(&key)),
        Ok(String::from(
            "fdbabe1c9d3472007856e7190d01e9fe7c6ad7cbc8237830e77376634b373162\
             2eaf30d92e22a3886ff109279d9830dac727afb94a83ee6d8360cbdfa2cc0640"
        ))
    );
}

#[test]
fn scrypt_refuses_bad_parameters() {
    assert_eq!(scrypt("p", b"s", 4, 0, 1, 32), Err(HashError::ScryptParams));
    assert_eq!(scrypt("p", b"s", 4, 1, 0, 32), Err(HashError::ScryptParams));
    assert_eq!(scrypt("p", b"s", 64, 1, 1, 32), Err(HashError::ScryptParams));
    assert_eq!(scrypt("p", b"s", 255, 1, 1, 32), Err(HashError::ScryptParams));
    assert_eq!(scrypt("p", b"s", 4, 1, 1, 0), Err(HashError::ScryptParams));
    assert_eq!(scrypt("p", b"s", 4, 0x8000, 0x8000, 32), Err(HashError::ScryptParams));
    assert_eq!(scrypt("p", b"s", 4, 0x1_0000, 0x1_0000, 32), Err(HashError::ScryptParams));
    assert_eq!(scrypt("p", b"s", 4, u32::MAX, u32::MAX, 32), Err(HashError::ScryptParams));
    assert_eq!(scrypt("p", b"s", 60, 1, 1, 32), Err(HashError::ScryptParams));
    assert_eq!(scrypt("p", b"s", 4, 1, 1, usize::MAX), Err(HashError::ScryptParams));
    assert_eq!(scrypt("p", b"s", 31, 1 << 25, 1, 32), Err(HashError::ScryptParams));
    assert_eq!(scrypt("p", b"s", 56, 1, 1, 32), Err(HashError::ScryptParams));
    assert_eq!(scrypt("p", b"s", 1, 1, 1, 16).map(|key| key.len()), Ok(16));
    assert_eq!(scrypt("p", b"s", 1, 1, 1, 1).map(|key| key.len()), Ok(1));
    assert_eq!(scrypt("p", b"s", 1, 1, 1, 100).map(|key| key.len()), Ok(100));
}

#[test]
fn hash_password_writes_the_four_hashes() {
    let salt = BASE64_STANDARD.encode(b"NaCl");
    let digests = hash_password(&request("password", &salt)).unwrap();
    assert_eq!(digests.sha256, hexlify(&sha256("password")));
    assert_eq!(digests.sha256, "5e884898da28047151d0e56f8dc6292773603d0d6aabbdd62a11ef721d1542d8");
    assert_eq!(digests.hmac, hexlify(&hmac("password", b"NaCl")));
    assert_eq!(digests.pbkdf2, hexlify(&pbkdf2("password", b"NaCl", 2, "sha256", 32).unwrap()));
    assert_eq!(digests.scrypt, hexlify(&scrypt("password", b"NaCl", 4, 1, 1, 64).unwrap()));
    assert_eq!(digests.scrypt.len(), 128);
    assert_eq!(digests.pbkdf2.len(), 64);
}

#[test]
fn hash_password_reports_errors_in_order() {
    let mut bad = request("password", "not base64!");
    bad.pbkdf2_hash = "md5";
    bad.scrypt_r = 0;
    assert_eq!(hash_password(&bad), Err(HashError::SaltNotBase64));
    bad.salt = "TmFDbA==";
    assert_eq!(hash_password(&bad), Err(HashError::UnsupportedHash));
    bad.pbkdf2_hash = "sha256";
    assert_eq!(hash_password(&bad), Err(HashError::ScryptParams));
    bad.scrypt_r = 1;
    assert!(hash_password(&bad).is_ok());
}

#[test]
fn squash_drops_spaces_and_lowers_ascii_capitals() {
    assert_eq!(squash("New Zealand"), "newzealand");
    assert_eq!(squash("  A  b\tC "), "ab\tc");
    assert_eq!(squash("\u{c5}land Islands"), "\u{c5}landislands");
    assert_eq!(squash(""), "");
}

#[test]
fn country_code_looks_the_squashed_name_up() {
    assert_eq!(country_code("New Zealand"), Some(String::from("NZ")));
    assert_eq!(country_code("United States of America"), Some(String::from("US")));
    assert_eq!(country_code("GERMANY"), Some(String::from("DE")));
    assert_eq!(country_code("Tokelau"), Some(String::from("TK")));
    assert_eq!(country_code("Tokelau Islands"), Some(String::from("TK")));
    assert_eq!(country_code("Atlantis"), None);
    assert_eq!(country_code(""), None);
}

#[test]
fn serial_digits_cuts_two_bytes_off() {
    assert_eq!(serial_digits("0x1f"), Some("1f"));
    assert_eq!(serial_digits("0x"), Some(""));
    assert_eq!(serial_digits("\u{e9}1"), Some("1"));
    assert_eq!(serial_digits("0"), None);
    assert_eq!(serial_digits(""), None);
    assert_eq!(serial_digits("a\u{e9}"), None);
}

#[test]
fn generate_certificate_signs_what_was_asked() {
    let key = PKey::from_rsa(Rsa::generate(2048).unwrap()).unwrap();
    let key_text = BASE64_STANDARD.encode(key.private_key_to_der().unwrap());
    let der = generate_certificate(&key_text, &required("Sri Lanka", "0x0BADC0DE")).unwrap();
    let certificate = X509::from_der(&der).unwrap();
    let subject = certificate.subject_name();
    let country = subject.entries_by_nid(Nid::COUNTRYNAME).next().unwrap();
    assert_eq!(country.data().as_slice(), b"LK");
    let common_name = subject.entries_by_nid(Nid::COMMONNAME).next().unwrap();
    assert_eq!(common_name.data().as_slice(), b"example.org");
    assert_eq!(subject.entries().count(), 2);
    let serial = certificate.serial_number().to_bn().unwrap();
    assert_eq!(serial.to_hex_str().unwrap().to_string(), "0BADC0DE");
    assert!(certificate.verify(&key).unwrap());
    assert!(certificate.public_key().unwrap().public_eq(&key));
    let validity = certificate.not_before().diff(certificate.not_after()).unwrap();
    assert_eq!((validity.days, validity.secs), (10, 0));
    let from_now = Asn1Time::days_from_now(0).unwrap().diff(certificate.not_after()).unwrap();
    assert!(from_now.days == 10 || (from_now.days == 9 && from_now.secs > 86_000));
    assert_eq!(encode_certificate(&der), Some(BASE64_STANDARD.encode(&der)));
    assert_eq!(from_base64(&encode_certificate(&der).unwrap()), Some(der));
    assert_eq!(VALIDITY_DAYS, 10);
}

#[test]
fn generate_certificate_reports_the_first_step_that_fails() {
    let key = PKey::from_rsa(Rsa::generate(2048).unwrap()).unwrap();
    let key_text = BASE64_STANDARD.encode(key.private_key_to_der().unwrap());
    assert_eq!(
        generate_certificate("???", &required("Nowhere", "0")),
        Err(CertificateError::UnknownCountry)
    );
    assert_eq!(
        generate_certificate(&key_text, &required("Nowhere", "0x01")),
        Err(CertificateError::UnknownCountry)
    );
    let mut long_domain = required("Peru", "0");
    long_domain.domain = "x".repeat(65);
    assert_eq!(generate_certificate("???", &long_domain), Err(CertificateError::Tls));
    long_domain.domain = "x".repeat(5000);
    assert_eq!(generate_certificate("???", &long_domain), Err(CertificateError::Tls));
    assert_eq!(
        generate_certificate("???", &required("Peru", "0")),
        Err(CertificateError::KeyNotBase64)
    );
    assert_eq!(generate_certificate("AAAA", &required("Peru", "0")), Err(CertificateError::Tls));
    assert_eq!(
        generate_certificate("AAAA", &required("Peru", "0x01")),
        Err(CertificateError::Tls)
    );
    assert_eq!(
        generate_certificate(&key_text, &required("Peru", "1")),
        Err(CertificateError::SerialTooShort)
    );
    assert_eq!(
        generate_certificate(&key_text, &required("Peru", "a\u{e9}")),
        Err(CertificateError::SerialTooShort)
    );
    assert_eq!(
        generate_certificate(&key_text, &required("Peru", "0xnot hex")),
        Err(CertificateError::Tls)
    );
    assert_eq!(
        generate_certificate(&key_text, &required("Peru", "0x\u{0}12")),
        Err(CertificateError::Tls)
    );
    assert!(generate_certificate(&key_text, &required("Peru", "0x01")).is_ok());
}
