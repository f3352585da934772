use authenticator::codec::{
    decode, key_from_decoded, key_from_raw, pad_to_min, ByteKey, DecodeError, SecretMode,
};
use authenticator::totp::{
    current, generate, generate_totp, next, previous, remaining_seconds, DIGITS, TIME_STEP,
};

const RFC_SECRET_RAW: &str = "12345678901234567890";
const RFC_SECRET_BASE32: &str = "GEZDGNBVGY3TQOJQGEZDGNBVGY3TQOJQ";
const HELLO_SECRET: &str = "JBSWY3DPEHPK3PXP";

#[test]
fn rfc_6238_sha1_vectors_in_raw_mode() {
    let key = decode(RFC_SECRET_RAW, SecretMode::Raw).unwrap();
    assert_eq!(generate(&key, 30, 59), "287082");
    assert_eq!(generate(&key, 30, 1111111109), "081804");
    assert_eq!(generate(&key, 30, 1111111111), "050471");
    assert_eq!(generate(&key, 30, 1234567890), "005924");
    assert_eq!(generate(&key, 30, 2000000000), "279037");
    assert_eq!(generate(&key, 30, 20000000000), "353130");
}

#[test]
fn rfc_6238_sha1_vectors_in_base32() {
    assert_eq!(generate_totp(RFC_SECRET_BASE32, 59), Ok("287082".to_string()));
    assert_eq!(generate_totp(RFC_SECRET_BASE32, 1111111109), Ok("081804".to_string()));
}

#[test]
fn hello_secret_in_the_default_mode() {
    assert_eq!(generate_totp(HELLO_SECRET, 59), Ok("996554".to_string()));
    assert_eq!(generate_totp(HELLO_SECRET, 1111111109), Ok("071271".to_string()));
    assert_eq!(generate_totp(HELLO_SECRET, 0), Ok("282760".to_string()));
}

#[test]
fn hello_secret_in_raw_mode() {
    let key = decode(HELLO_SECRET, SecretMode::Raw).unwrap();
    assert_eq!(generate(&key, 30, 59), "081891");
    assert_eq!(generate(&key, 30, 0), "007510");
}

#[test]
fn default_mode_is_base32_with_zero_padding() {
    let padded = decode(HELLO_SECRET, SecretMode::Base32Padded).unwrap();
    let raw = decode(HELLO_SECRET, SecretMode::Raw).unwrap();
    for t in [0u64, 59, 60, 1111111109] {
        assert_eq!(generate_totp(HELLO_SECRET, t), Ok(generate(&padded, TIME_STEP, t)));
    }
    assert_ne!(generate_totp(HELLO_SECRET, 59), Ok(generate(&raw, TIME_STEP, 59)));
}

#[test]
fn base32_decodes_to_bytes_and_pads_with_zeros() {
    let key = decode(HELLO_SECRET, SecretMode::Base32Padded).unwrap();
    let mut expected = b"Hello!\xDE\xAD\xBE\xEF".to_vec();
    expected.extend_from_slice(&[0u8; 6]);
    assert_eq!(key.as_bytes(), &expected);
    assert_eq!(key.as_bytes().len(), 16);
}

#[test]
fn base32_key_of_twenty_bytes_is_not_padded() {
    let key = decode("MFRGGZDFMZTWQ2LKNNWG23TPOBYXE43U", SecretMode::Base32Padded).unwrap();
    assert_eq!(key.as_bytes(), &b"abcdefghijklmnopqrst".to_vec());
}

#[test]
fn base32_accepts_lower_case() {
    assert_eq!(
        generate_totp("jbswy3dpehpk3pxp", 59),
        generate_totp(HELLO_SECRET, 59)
    );
}

#[test]
fn short_base32_secret_is_padded_to_sixteen_bytes() {
    let key = decode("MFRGG", SecretMode::Base32Padded).unwrap();
    let mut expected = b"abc".to_vec();
    expected.extend_from_slice(&[0u8; 13]);
    assert_eq!(key.as_bytes(), &expected);
    assert_eq!(generate(&key, 30, 30), "151739");
}

#[test]
fn empty_text_decodes_to_sixteen_zero_bytes() {
    let key = decode("", SecretMode::Base32Padded).unwrap();
    assert_eq!(key.as_bytes(), &vec![0u8; 16]);
    assert_eq!(generate(&key, 30, 0), "328482");
    assert_eq!(generate(&key, 30, 30), "812658");
}

#[test]
fn pad_to_min_fills_up_and_leaves_long_keys_alone() {
    assert_eq!(pad_to_min(vec![]), vec![0u8; 16]);
    assert_eq!(
        pad_to_min(vec![1, 2, 3]),
        vec![1, 2, 3, 0, 0, 0, 0, 0, 0, 0, 0, 0, 0, 0, 0, 0]
    );
    let long: Vec<u8> = (0u8..20).collect();
    assert_eq!(pad_to_min(long.clone()), long);
    let exact: Vec<u8> = (0u8..16).collect();
    assert_eq!(pad_to_min(exact.clone()), exact);
}

#[test]
fn text_that_is_not_base32_is_rejected() {
    assert_eq!(
        decode("not base32!", SecretMode::Base32Padded).err(),
        Some(DecodeError::InvalidEncoding)
    );
    assert_eq!(
        decode("JBSWY3DP1", SecretMode::Base32Padded).err(),
        Some(DecodeError::InvalidEncoding)
    );
    assert_eq!(
        decode("sch\u{00fc}ssel", SecretMode::Base32Padded).err(),
        Some(DecodeError::InvalidEncoding)
    );
    assert_eq!(
        generate_totp("not base32!", 59),
        Err("Failed to decode secret".to_string())
    );
}

#[test]
fn raw_text_under_sixteen_bytes_is_rejected() {
    assert_eq!(
        decode("fifteen bytes!!", SecretMode::Raw).err(),
        Some(DecodeError::KeyTooShort)
    );
    assert!(decode("sixteen bytes!!!", SecretMode::Raw).is_ok());
    assert_eq!(decode("", SecretMode::Raw).err(), Some(DecodeError::KeyTooShort));
}

#[test]
fn raw_key_is_the_utf8_bytes_of_the_text() {
    let key = decode("sch\u{00fc}ssel-schl\u{00fc}ssel", SecretMode::Raw).unwrap();
    assert_eq!(key.as_bytes(), &"sch\u{00fc}ssel-schl\u{00fc}ssel".as_bytes().to_vec());
}

#[test]
fn byte_key_needs_sixteen_bytes() {
    assert!(ByteKey::from_bytes(vec![7u8; 15]).is_none());
    let key = ByteKey::from_bytes(vec![7u8; 16]).unwrap();
    assert_eq!(key.as_bytes(), &vec![7u8; 16]);
}

#[test]
fn code_is_six_digits_and_the_same_on_every_run() {
    for secret in [HELLO_SECRET, RFC_SECRET_BASE32, "MFRGG", ""] {
        for t in [0u64, 1, 29, 30, 59, 1111111109, u64::MAX] {
            let first = generate_totp(secret, t).unwrap();
            let second = generate_totp(secret, t).unwrap();
            assert_eq!(first, second);
            assert_eq!(first.len(), DIGITS);
            assert!(first.chars().all(|c| c.is_ascii_digit()));
        }
    }
}

#[test]
fn remaining_seconds_counts_down_to_the_step() {
    assert_eq!(remaining_seconds(0), 30);
    assert_eq!(remaining_seconds(1), 29);
    assert_eq!(remaining_seconds(29), 1);
    assert_eq!(remaining_seconds(30), 30);
    assert_eq!(remaining_seconds(59), 1);
    assert_eq!(remaining_seconds(60), 30);
    assert_eq!(remaining_seconds(1111111109), 1);
    assert_eq!(remaining_seconds(u64::MAX), 15);
}

#[test]
fn remaining_seconds_stays_in_range_and_repeats() {
    for t in 0u64..200 {
        let left = remaining_seconds(t);
        assert!((1..=30).contains(&left));
        assert_eq!(left, remaining_seconds(t + 30));
    }
}

#[test]
fn code_changes_only_with_the_step() {
    let key = decode(RFC_SECRET_RAW, SecretMode::Raw).unwrap();
    assert_eq!(current(&key, 0), "755224");
    assert_eq!(current(&key, 29), "755224");
    assert_eq!(current(&key, 30), "287082");
    assert_eq!(current(&key, 59), "287082");
    assert_eq!(current(&key, 60), "359152");
    for t in 30u64..60 {
        assert_eq!(current(&key, t), current(&key, 30));
    }
}

#[test]
fn previous_and_next_are_one_step_away() {
    let key = decode(RFC_SECRET_RAW, SecretMode::Raw).unwrap();
    assert_eq!(previous(&key, 59), "755224");
    assert_eq!(current(&key, 59), "287082");
    assert_eq!(next(&key, 59), "359152");
    assert_eq!(previous(&key, 30), current(&key, 0));
    assert_eq!(next(&key, 0), current(&key, 30));
    assert_eq!(previous(&key, 1111111109), "731029");
    assert_eq!(next(&key, 1111111109), "050471");
}

#[test]
fn step_length_is_a_parameter_of_generate() {
    let key = decode(RFC_SECRET_RAW, SecretMode::Raw).unwrap();
    assert_eq!(generate(&key, 1, 1), "287082");
    assert_eq!(generate(&key, 60, 119), "287082");
    assert_eq!(generate(&key, 60, 120), "359152");
}

#[test]
fn key_from_decoded_pads_or_rejects() {
    let key = key_from_decoded(Some(vec![9, 8, 7])).unwrap();
    assert_eq!(key.as_bytes(), &vec![9, 8, 7, 0, 0, 0, 0, 0, 0, 0, 0, 0, 0, 0, 0, 0]);
    let long: Vec<u8> = (1u8..=17).collect();
    assert_eq!(key_from_decoded(Some(long.clone())).unwrap().as_bytes(), &long);
    assert_eq!(key_from_decoded(None).err(), Some(DecodeError::InvalidEncoding));
}

#[test]
fn key_from_raw_takes_sixteen_bytes_or_more() {
    assert_eq!(key_from_raw(vec![1u8; 15]).err(), Some(DecodeError::KeyTooShort));
    assert_eq!(key_from_raw(vec![]).err(), Some(DecodeError::KeyTooShort));
    assert_eq!(key_from_raw(vec![1u8; 16]).unwrap().as_bytes(), &vec![1u8; 16]);
    assert_eq!(key_from_raw(vec![2u8; 40]).unwrap().as_bytes(), &vec![2u8; 40]);
}
