//! The functions of the standard library and of other crates whose behaviour the verified code
//! relies on without proof.
use base64::Engine;
use vstd::prelude::*;

verus! {

/// `String::push`: appends the given character to the end of the string.
pub assume_specification[ String::push ](s: &mut String, c: char)
    ensures
        final(s)@ == old(s)@.push(c),
;

/// `char::from_u32`: the character with the given code point, which exists exactly for the
/// Unicode scalar values.
pub assume_specification[ char::from_u32 ](i: u32) -> (c: Option<char>)
    ensures
        c is Some <==> (i <= 0xD7FF || 0xE000 <= i <= 0x10FFFF),
        c is Some ==> c->0 as u32 == i,
;

/// The MD5 digest of a sequence of bytes.
pub uninterp spec fn md5_digest(data: Seq<u8>) -> Seq<u8>;

/// `md5::compute`: the MD5 digest of the data, as its sixteen bytes.
#[verifier::external_body]
pub(crate) fn md5_compute(data: &[u8]) -> (digest: [u8; 16])
    ensures
        digest@ == md5_digest(data@),
{
    md5::compute(data).0
}

/// What a text stands for in Base64 with the standard alphabet and with padding; none if it is
/// not well-formed.
pub uninterp spec fn base64_decoded(text: Seq<char>) -> Option<Seq<u8>>;

/// `base64::engine::general_purpose::STANDARD.decode`: the bytes that the text stands for, none
/// where the decoder reports an error.
#[verifier::external_body]
pub(crate) fn base64_decode(text: &str) -> (bytes: Option<Vec<u8>>)
    ensures
        match bytes {
            Some(b) => base64_decoded(text@) == Some(b@),
            None => base64_decoded(text@) is None,
        },
{
    base64::engine::general_purpose::STANDARD.decode(text).ok()
}

/// The length of the longest part of the first `n` bytes, from their start on, that is valid
/// UTF-8.
pub open spec fn valid_length(bytes: Seq<u8>, n: nat) -> nat
    decreases n,
{
    if n == 0 || vstd::utf8::valid_utf8(bytes.take(n as int)) {
        n
    } else {
        valid_length(bytes, (n - 1) as nat)
    }
}

/// The length of the sequence at which bytes stop being valid UTF-8; none if they end within it.
pub uninterp spec fn utf8_error_length(bytes: Seq<u8>) -> Option<usize>;

/// `core::str::from_utf8`: the text that the bytes encode, exactly if they are valid UTF-8. The
/// error tells up to which index they are, `valid_up_to`, and the length of the sequence that
/// stands there, `error_len`; which length that is, is left to the name.
#[verifier::external_body]
pub(crate) fn utf8_text(bytes: &[u8]) -> (text: Result<&str, (usize, Option<usize>)>)
    ensures
        text is Ok <==> vstd::utf8::valid_utf8(bytes@),
        text is Ok ==> text->Ok_0@ == vstd::utf8::decode_utf8(bytes@),
        text is Err ==> text->Err_0.0 == valid_length(bytes@, bytes@.len()) && text->Err_0.1
            == utf8_error_length(bytes@),
{
    core::str::from_utf8(bytes).map_err(|error| (error.valid_up_to(), error.error_len()))
}

/// The text that a sequence of bytes encodes, with replacement characters in place of what is
/// not valid UTF-8.
pub uninterp spec fn utf8_lossy(bytes: Seq<u8>) -> Seq<char>;

/// `String::from_utf8_lossy`: the text that the bytes encode, with the replacement character in
/// place of invalid sequences. Valid UTF-8 is decoded unchanged; how long each invalid sequence
/// is taken to be is left to the name.
#[verifier::external_body]
pub(crate) fn utf8_text_lossy(bytes: &[u8]) -> (text: String)
    ensures
        text@ == utf8_lossy(bytes@),
        vstd::utf8::valid_utf8(bytes@) ==> text@ == vstd::utf8::decode_utf8(bytes@),
{
    String::from_utf8_lossy(bytes).into_owned()
}

} // verus!
