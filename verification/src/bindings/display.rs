//! Texts that std reads and makes.

use vstd::prelude::*;

verus! {

/// Appends one character: `String::push` adds `c` behind what the string holds.
pub assume_specification[ String::push ](s: &mut String, c: char)
    ensures
        final(s)@ == old(s)@.push(c),
;

/// A span of time as the `Debug` of `std::time::Duration` writes it.
pub uninterp spec fn duration_text(secs: u64, nanos: u32) -> Seq<char>;

/// A text as the `Debug` of `str` writes it: in quotes, with escapes.
pub uninterp spec fn quoted(s: Seq<char>) -> Seq<char>;

/// Writes a span of time with the `Debug` of `std::time::Duration`.
#[verifier::external_body]
pub(crate) fn debug_duration(secs: u64, nanos: u32) -> (r: String)
    requires
        nanos < 1_000_000_000,
    ensures
        r@ == duration_text(secs, nanos),
{
    format!("{:?}", std::time::Duration::new(secs, nanos))
}

/// Writes a text with the `Debug` of `str`.
#[verifier::external_body]
pub(crate) fn debug_str(s: &str) -> (r: String)
    ensures
        r@ == quoted(s@),
{
    format!("{s:?}")
}

/// What the `Display` of `std::string::FromUtf8Error` says of bytes that are no
/// UTF-8.
pub uninterp spec fn utf8_error(bytes: Seq<u8>) -> Seq<char>;

/// `String::from_utf8`: the text that bytes in UTF-8 stand for; for other bytes
/// the error in words.
#[verifier::external_body]
pub(crate) fn read_utf8(bytes: Vec<u8>) -> (r: Result<String, String>)
    ensures
        match r {
            Ok(s) => vstd::utf8::valid_utf8(bytes@) && s@ == vstd::utf8::decode_utf8(bytes@),
            Err(e) => !vstd::utf8::valid_utf8(bytes@) && e@ == utf8_error(bytes@),
        },
{
    String::from_utf8(bytes).map_err(|e| e.to_string())
}

} // verus!
