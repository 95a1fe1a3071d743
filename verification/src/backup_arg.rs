//! The backup-file argument of a recovery: a literal path, or the Base64
//! encoding of one.

use vstd::prelude::*;
use vstd::utf8::{decode_utf8, encode_utf8, valid_utf8};
use crate::text::chars_of;

verus! {

/// Whether `c` belongs to the Base64 alphabet, padding included.
pub open spec fn is_base64_char(c: char) -> bool {
    ('A' <= c && c <= 'Z') || ('a' <= c && c <= 'z') || ('0' <= c && c <= '9') || c == '+' || c
        == '/' || c == '='
}

/// The shape test for an encoded argument: a length that is a multiple of
/// four and no character outside the alphabet.
pub open spec fn looks_base64(s: Seq<char>) -> bool {
    s.len() % 4 == 0 && forall|i: int| 0 <= i < s.len() ==> is_base64_char(#[trigger] s[i])
}

fn base64_char(c: char) -> (b: bool)
    ensures
        b == is_base64_char(c),
{
    ('A' <= c && c <= 'Z') || ('a' <= c && c <= 'z') || ('0' <= c && c <= '9') || c == '+' || c
        == '/' || c == '='
}

/// Decides whether an argument has the shape of Base64 text.
pub fn is_base64_encoded(input: &str) -> (b: bool)
    ensures
        b == looks_base64(input@),
{
    let chars = chars_of(input);
    let mut i: usize = 0;
    while i < chars.len()
        invariant
            i <= chars.len(),
            chars@ == input@,
            forall|j: int| 0 <= j < i ==> is_base64_char(#[trigger] chars@[j]),
        decreases chars.len() - i,
    {
        if !base64_char(chars[i]) {
            return false;
        }
        i += 1;
    }
    chars.len() % 4 == 0
}

/// The decoding error of the `base64` crate, carried through unread.
#[verifier::external_type_specification]
#[verifier::external_body]
pub struct ExDecodeError(base64::DecodeError);

/// What the `base64` crate's standard decoder makes of a text: the decoded
/// bytes, or `None` where it rejects the text.
pub uninterp spec fn base64_decoding(text: Seq<char>) -> Option<Seq<u8>>;

/// Calls `base64::decode`, the decoder for the standard alphabet with
/// padding. Nothing is proved of it: its result, which depends on the text
/// alone, goes by the name `base64_decoding`.
#[allow(deprecated)]
#[verifier::external_body]
fn decode_standard(text: &str) -> (r: Result<Vec<u8>, base64::DecodeError>)
    ensures
        match r {
            Ok(bytes) => base64_decoding(text@) == Some(bytes@),
            Err(_) => base64_decoding(text@).is_none(),
        },
{
    base64::decode(text)
}

/// Calls `String::from_utf8`: the bytes as a string where they are valid
/// UTF-8, and `None` where they are not.
#[verifier::external_body]
fn string_from_utf8(bytes: Vec<u8>) -> (r: Option<String>)
    ensures
        match r {
            Some(s) => valid_utf8(bytes@) && s@ == decode_utf8(bytes@),
            None => !valid_utf8(bytes@),
        },
{
    String::from_utf8(bytes).ok()
}

/// Why an argument of Base64 shape could not be read as a path.
#[derive(Clone, Copy, Debug, PartialEq, Eq, Structural)]
pub enum BackupArgError {
    /// The decoder rejected the text.
    InvalidBase64,
    /// The decoded bytes are not UTF-8.
    InvalidUtf8,
}

impl BackupArgError {
    /// The error in words.
    pub fn message(&self) -> (text: String)
        ensures
            text@ == match *self {
                BackupArgError::InvalidBase64 => "Error decoding Base64"@,
                BackupArgError::InvalidUtf8 => "Error decoding Base64 to UTF-8"@,
            },
    {
        match self {
            BackupArgError::InvalidBase64 => String::from_str("Error decoding Base64"),
            BackupArgError::InvalidUtf8 => String::from_str("Error decoding Base64 to UTF-8"),
        }
    }
}

/// The path that a decoding stands for: the decoded bytes read as UTF-8.
pub open spec fn path_of_decoding(decoding: Option<Seq<u8>>) -> Result<Seq<char>, BackupArgError> {
    match decoding {
        None => Err(BackupArgError::InvalidBase64),
        Some(bytes) => if valid_utf8(bytes) {
            Ok(decode_utf8(bytes))
        } else {
            Err(BackupArgError::InvalidUtf8)
        },
    }
}

/// The path that an argument stands for, given what the decoder makes of
/// it: the argument itself where it has not the shape of Base64, and the
/// path of its decoding where it has.
pub open spec fn backup_path_of(arg: Seq<char>, decoding: Option<Seq<u8>>) -> Result<
    Seq<char>,
    BackupArgError,
> {
    if looks_base64(arg) {
        path_of_decoding(decoding)
    } else {
        Ok(arg)
    }
}

/// The view of a result of `resolve_backup_argument`.
pub open spec fn path_view(r: Result<String, BackupArgError>) -> Result<Seq<char>, BackupArgError> {
    match r {
        Ok(path) => Ok(path@),
        Err(e) => Err(e),
    }
}

/// The view of a decoding held in memory.
pub open spec fn decoding_view(decoded: Option<Vec<u8>>) -> Option<Seq<u8>> {
    match decoded {
        Some(bytes) => Some(bytes@),
        None => None,
    }
}

/// Reads the outcome of a decoding as a path.
pub fn interpret_decoding(decoded: Option<Vec<u8>>) -> (r: Result<String, BackupArgError>)
    ensures
        path_view(r) == path_of_decoding(decoding_view(decoded)),
{
    match decoded {
        None => Err(BackupArgError::InvalidBase64),
        Some(bytes) => match string_from_utf8(bytes) {
            Some(path) => Ok(path),
            None => Err(BackupArgError::InvalidUtf8),
        },
    }
}

/// Resolves the backup-file argument of a recovery: an argument of Base64
/// shape is decoded and read as UTF-8, any other is taken literally.
pub fn resolve_backup_argument(arg: &str) -> (r: Result<String, BackupArgError>)
    ensures
        path_view(r) == backup_path_of(arg@, base64_decoding(arg@)),
        !looks_base64(arg@) ==> r is Ok,
{
    if is_base64_encoded(arg) {
        let decoded = match decode_standard(arg) {
            Ok(bytes) => Some(bytes),
            Err(_) => None,
        };
        interpret_decoding(decoded)
    } else {
        Ok(arg.to_owned())
    }
}

/// Where the decoder returns the UTF-8 bytes of a path for an argument of
/// Base64 shape, the argument stands for that path.
pub proof fn lemma_decoded_bytes_give_the_path(arg: Seq<char>, path: Seq<char>)
    requires
        looks_base64(arg),
    ensures
        backup_path_of(arg, Some(encode_utf8(path))) == Ok::<Seq<char>, BackupArgError>(path),
{
    vstd::utf8::encode_utf8_valid_utf8(path);
    vstd::utf8::encode_utf8_decode_utf8(path);
}

/// An argument that holds a character outside the Base64 alphabet, or whose
/// length is no multiple of four, stands for itself.
pub proof fn lemma_literal_stands_for_itself(arg: Seq<char>, decoding: Option<Seq<u8>>, i: int)
    requires
        arg.len() % 4 != 0 || (0 <= i < arg.len() && !is_base64_char(arg[i])),
    ensures
        backup_path_of(arg, decoding) == Ok::<Seq<char>, BackupArgError>(arg),
{
}

} // verus!
