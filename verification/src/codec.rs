//! Turning the text of a shared secret into the byte key that signs a time step.

use vstd::prelude::*;
use vstd::string::*;

verus! {

/// The least number of key bytes (128 bits) that the code generator accepts.
pub const MIN_KEY_LEN: usize = 16;

/// How the text of a secret becomes a key.
#[derive(Clone, Copy, Debug, PartialEq, Eq)]
pub enum SecretMode {
    /// The text is Base32 (RFC 4648, no padding); a decoded key shorter than
    /// [`MIN_KEY_LEN`] bytes is filled up with zero bytes. This is the default.
    Base32Padded,
    /// The UTF-8 bytes of the text are the key, unchanged.
    Raw,
}

/// Why a secret gave no key.
#[derive(Clone, Copy, Debug, PartialEq, Eq)]
pub enum DecodeError {
    /// The text is not Base32, or too long for the decoder.
    InvalidEncoding,
    /// The raw text has fewer than [`MIN_KEY_LEN`] bytes.
    KeyTooShort,
}

/// What `base32::decode` returns for the RFC 4648 alphabet with the given
/// padding flag on `text`: the decoded bytes, or `None` where it rejects the text.
pub uninterp spec fn rfc4648_decoded(padding: bool, text: Seq<char>) -> Option<Seq<u8>>;

/// Texts short enough for the decoder's length arithmetic.
pub open spec fn within_decoder_limit(text: Seq<char>) -> bool {
    text.len() * 5 <= usize::MAX
}

/// `bytes`, followed by as many zero bytes as it lacks to [`MIN_KEY_LEN`].
pub open spec fn zero_padded(bytes: Seq<u8>) -> Seq<u8> {
    if bytes.len() < MIN_KEY_LEN {
        bytes + Seq::new((MIN_KEY_LEN - bytes.len()) as nat, |i: int| 0u8)
    } else {
        bytes
    }
}

/// The key of what the Base32 decoder gave: the decoded bytes filled up with
/// zeros, or no key where it rejected the text.
pub open spec fn key_of_decoded(decoded: Option<Seq<u8>>) -> Result<Seq<u8>, DecodeError> {
    match decoded {
        Some(bytes) => Ok(zero_padded(bytes)),
        None => Err(DecodeError::InvalidEncoding),
    }
}

/// The key of raw bytes: the bytes themselves, if they are enough.
pub open spec fn key_of_raw(bytes: Seq<u8>) -> Result<Seq<u8>, DecodeError> {
    if bytes.len() >= MIN_KEY_LEN {
        Ok(bytes)
    } else {
        Err(DecodeError::KeyTooShort)
    }
}

/// The key of a secret in the given mode, or the reason why it has none.
pub open spec fn key_of(text: Seq<char>, mode: SecretMode) -> Result<Seq<u8>, DecodeError> {
    match mode {
        SecretMode::Base32Padded => {
            if within_decoder_limit(text) {
                key_of_decoded(rfc4648_decoded(false, text))
            } else {
                Err(DecodeError::InvalidEncoding)
            }
        },
        SecretMode::Raw => key_of_raw(vstd::utf8::encode_utf8(text)),
    }
}

/// Calls `base32::decode` with the RFC 4648 alphabet. The contract names the
/// result [`rfc4648_decoded`]; it leaves out texts so long that five times
/// their length overflows `usize`, on which the decoder's arithmetic fails.
#[verifier::external_body]
fn rfc4648_decode(padding: bool, text: &str) -> (r: Option<Vec<u8>>)
    requires
        within_decoder_limit(text@),
    ensures
        r is Some <==> rfc4648_decoded(padding, text@) is Some,
        r is Some ==> r->0@ == rfc4648_decoded(padding, text@)->0,
{
    base32::decode(base32::Alphabet::RFC4648 { padding }, text)
}

/// A key of at least [`MIN_KEY_LEN`] bytes.
pub struct ByteKey {
    bytes: Vec<u8>,
}

impl View for ByteKey {
    type V = Seq<u8>;

    closed spec fn view(&self) -> Seq<u8> {
        self.bytes@
    }
}

impl ByteKey {
    #[verifier::type_invariant]
    spec fn long_enough(self) -> bool {
        self.bytes@.len() >= MIN_KEY_LEN
    }

    /// Takes `bytes` as a key, unless they are too few.
    pub fn from_bytes(bytes: Vec<u8>) -> (r: Option<ByteKey>)
        ensures
            r is Some <==> bytes@.len() >= MIN_KEY_LEN,
            r is Some ==> r->0@ == bytes@,
    {
        if bytes.len() >= MIN_KEY_LEN {
            Some(ByteKey { bytes })
        } else {
            None
        }
    }

    /// The bytes of the key.
    pub fn as_bytes(&self) -> (r: &Vec<u8>)
        ensures
            r@ == self@,
            r@.len() >= MIN_KEY_LEN,
    {
        proof {
            use_type_invariant(self);
        }
        &self.bytes
    }
}

/// Appends zero bytes to `bytes` until it has [`MIN_KEY_LEN`] of them.
pub fn pad_to_min(bytes: Vec<u8>) -> (r: Vec<u8>)
    ensures
        r@ == zero_padded(bytes@),
{
    let mut padded = bytes;
    while padded.len() < MIN_KEY_LEN
        invariant
            padded@.len() <= MIN_KEY_LEN || padded@ == bytes@,
            padded@.len() >= bytes@.len(),
            padded@.subrange(0, bytes@.len() as int) == bytes@,
            forall|i: int| bytes@.len() <= i < padded@.len() ==> padded@[i] == 0u8,
        decreases MIN_KEY_LEN - padded.len(),
    {
        padded.push(0u8);
    }
    padded
}

/// The key of what the Base32 decoder gave for a secret.
pub fn key_from_decoded(decoded: Option<Vec<u8>>) -> (r: Result<ByteKey, DecodeError>)
    ensures
        decoded is Some ==> r is Ok && r->Ok_0@ == zero_padded(decoded->0@),
        decoded is None ==> r == Err::<ByteKey, DecodeError>(DecodeError::InvalidEncoding),
{
    match decoded {
        Some(bytes) => Ok(ByteKey { bytes: pad_to_min(bytes) }),
        None => Err(DecodeError::InvalidEncoding),
    }
}

/// The key that raw bytes are, if they are enough.
pub fn key_from_raw(bytes: Vec<u8>) -> (r: Result<ByteKey, DecodeError>)
    ensures
        bytes@.len() >= MIN_KEY_LEN ==> r is Ok && r->Ok_0@ == bytes@,
        bytes@.len() < MIN_KEY_LEN ==> r == Err::<ByteKey, DecodeError>(DecodeError::KeyTooShort),
{
    match ByteKey::from_bytes(bytes) {
        Some(key) => Ok(key),
        None => Err(DecodeError::KeyTooShort),
    }
}

/// Derives the key of `secret` in the given mode.
///
/// In [`SecretMode::Base32Padded`] the text is decoded as Base32 and filled
/// up with zero bytes; text that is not Base32, or too long for the decoder,
/// gives [`DecodeError::InvalidEncoding`]. In [`SecretMode::Raw`] the bytes of the
/// text are the key; fewer than [`MIN_KEY_LEN`] give
/// [`DecodeError::KeyTooShort`].
pub fn decode(secret: &str, mode: SecretMode) -> (r: Result<ByteKey, DecodeError>)
    ensures
        r is Ok <==> key_of(secret@, mode) is Ok,
        r is Ok ==> r->Ok_0@ == key_of(secret@, mode)->Ok_0,
        r is Err ==> r->Err_0 == key_of(secret@, mode)->Err_0,
{
    match mode {
        SecretMode::Base32Padded => {
            if secret.unicode_len() > usize::MAX / 5 {
                return Err(DecodeError::InvalidEncoding);
            }
            key_from_decoded(rfc4648_decode(false, secret))
        },
        SecretMode::Raw => key_from_raw(secret.as_bytes_vec()),
    }
}

} // verus!
