//! Time-based one-time codes: HMAC-SHA1, six digits, thirty-second steps.

use crate::codec::{decode, key_of, ByteKey, DecodeError, SecretMode};
use totp_rs::TotpUrlError;
use vstd::prelude::*;
use vstd::string::*;

verus! {

/// The number of digits of a code.
pub const DIGITS: usize = 6;

/// The length of a time step in seconds.
pub const TIME_STEP: u64 = 30;

/// The number of steps before and after the current one that a verifier tolerates.
pub const SKEW: u8 = 1;

/// The token that `TOTP::generate` of totp-rs returns for HMAC-SHA1 with this
/// key and number of digits, at any time that lies in the step numbered
/// `counter`: the HOTP value of the counter, in decimal, left-padded with zeros.
pub uninterp spec fn totp_sha1_token(key: Seq<u8>, digits: usize, counter: u64) -> Seq<char>;

/// The error of `TOTP::new`.
#[verifier::external_type_specification]
#[verifier::external_body]
pub struct ExTotpUrlError(TotpUrlError);

/// Whether every character is a decimal digit.
pub open spec fn all_digits(s: Seq<char>) -> bool {
    forall|i: int| 0 <= i < s.len() ==> '0' <= #[trigger] s[i] <= '9'
}

/// The parameters that `TOTP::new` accepts: 6 to 8 digits, and a key of at
/// least 128 bits.
pub open spec fn accepted_by_new(digits: usize, key_len: nat) -> bool {
    6 <= digits && digits <= 8 && key_len >= 16
}

/// Calls `TOTP::new` of totp-rs for HMAC-SHA1 and, where that accepts the
/// parameters, `TOTP::generate` at `time`.
///
/// The contract claims of them: `new` accepts exactly 6 to 8 digits with a key
/// of at least 16 bytes; `generate` signs the quotient of `time` by `step` and
/// nothing else of the two, so the token is [`totp_sha1_token`] at that
/// quotient; the token has `digits` characters, all decimal digits. A `step`
/// of zero, on which `generate` divides by zero, is left out.
#[verifier::external_body]
fn totp_sha1(key: &Vec<u8>, digits: usize, skew: u8, step: u64, time: u64) -> (r: Result<
    String,
    TotpUrlError,
>)
    requires
        step > 0,
    ensures
        r is Ok <==> accepted_by_new(digits, key@.len()),
        r is Ok ==> r->Ok_0@ == totp_sha1_token(key@, digits, time / step),
        r is Ok ==> r->Ok_0@.len() == digits && all_digits(r->Ok_0@),
{
    match totp_rs::TOTP::new(totp_rs::Algorithm::SHA1, digits, skew, step, key.clone()) {
        Ok(totp) => Ok(totp.generate(time)),
        Err(e) => Err(e),
    }
}

/// The code of `key` at `unix_time` with steps of `step` seconds.
pub open spec fn code_at(key: Seq<u8>, step: u64, unix_time: u64) -> Seq<char> {
    totp_sha1_token(key, DIGITS, unix_time / step)
}

/// The seconds left at `now` until the next step begins.
pub open spec fn remaining_at(now: int) -> int {
    TIME_STEP - now % (TIME_STEP as int)
}

/// The code of a secret in the default mode, or the reason why it has none.
pub open spec fn totp_of(secret: Seq<char>, time: u64) -> Result<Seq<char>, DecodeError> {
    match key_of(secret, SecretMode::Base32Padded) {
        Ok(key) => Ok(code_at(key, TIME_STEP, time)),
        Err(e) => Err(e),
    }
}

/// The message with which [`generate_totp`] rejects a secret.
pub open spec fn decode_failure() -> Seq<char> {
    seq![
        'F', 'a', 'i', 'l', 'e', 'd', ' ', 't', 'o', ' ', 'd', 'e', 'c', 'o', 'd', 'e', ' ', 's',
        'e', 'c', 'r', 'e', 't',
    ]
}

/// Derives the code of `key` at `unix_time`: six decimal digits that depend on
/// the time only through the number of the step it lies in.
pub fn generate(key: &ByteKey, time_step_seconds: u64, unix_time: u64) -> (code: String)
    requires
        time_step_seconds > 0,
    ensures
        code@ == code_at(key@, time_step_seconds, unix_time),
        code@.len() == DIGITS,
        all_digits(code@),
{
    let bytes = key.as_bytes();
    let token = totp_sha1(bytes, DIGITS, SKEW, time_step_seconds, unix_time);
    token.unwrap()
}

/// The code of the step that `now` lies in.
pub fn current(key: &ByteKey, now: u64) -> (code: String)
    ensures
        code@ == code_at(key@, TIME_STEP, now),
        code@.len() == DIGITS,
        all_digits(code@),
{
    generate(key, TIME_STEP, now)
}

/// The code of the step before the one that `now` lies in.
pub fn previous(key: &ByteKey, now: u64) -> (code: String)
    requires
        now >= TIME_STEP,
    ensures
        code@ == code_at(key@, TIME_STEP, (now - TIME_STEP) as u64),
        code@.len() == DIGITS,
        all_digits(code@),
{
    generate(key, TIME_STEP, now - TIME_STEP)
}

/// The code of the step after the one that `now` lies in.
pub fn next(key: &ByteKey, now: u64) -> (code: String)
    requires
        now + TIME_STEP <= u64::MAX,
    ensures
        code@ == code_at(key@, TIME_STEP, (now + TIME_STEP) as u64),
        code@.len() == DIGITS,
        all_digits(code@),
{
    generate(key, TIME_STEP, now + TIME_STEP)
}

/// The seconds left at `now` until the code changes, between 1 and 30.
pub fn remaining_seconds(now: u64) -> (left: u64)
    ensures
        left == remaining_at(now as int),
        1 <= left <= TIME_STEP,
{
    TIME_STEP - now % TIME_STEP
}

/// Derives the code of a Base32 secret at `time`, in the default mode.
///
/// A secret that is not Base32 is rejected with the message
/// "Failed to decode secret"; every other secret has a code.
pub fn generate_totp(secret: &str, time: u64) -> (r: Result<String, String>)
    ensures
        r is Ok <==> totp_of(secret@, time) is Ok,
        r is Ok ==> r->Ok_0@ == totp_of(secret@, time)->Ok_0,
        r is Ok ==> r->Ok_0@.len() == DIGITS && all_digits(r->Ok_0@),
        r is Err ==> r->Err_0@ == decode_failure(),
{
    match decode(secret, SecretMode::Base32Padded) {
        Ok(key) => Ok(generate(&key, TIME_STEP, time)),
        Err(_) => {
            let message = String::from_str("Failed to decode secret");
            proof {
                reveal_strlit("Failed to decode secret");
            }
            Err(message)
        },
    }
}

/// The countdown stays between 1 and 30 and repeats every 30 seconds.
pub proof fn lemma_remaining_periodic(now: int)
    ensures
        1 <= remaining_at(now) <= 30,
        remaining_at(now) == remaining_at(now + 30),
{
}

/// Two times in the same step have the same code.
pub proof fn lemma_code_constant_within_step(key: Seq<u8>, step: u64, t1: u64, t2: u64)
    requires
        step > 0,
        t1 / step == t2 / step,
    ensures
        code_at(key, step, t1) == code_at(key, step, t2),
{
}

} // verus!
