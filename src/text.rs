//! Text decoding and regular expressions, as relied on from std and `regex`.
use vstd::prelude::*;
use vstd::utf8::{decode_utf8, valid_utf8};

verus! {

#[verifier::external_type_specification]
#[verifier::external_body]
pub struct ExUtf8Error(core::str::Utf8Error);

#[verifier::external_type_specification]
#[verifier::external_body]
pub struct ExRegex(regex::Regex);

#[verifier::external_type_specification]
#[verifier::external_body]
pub struct ExBytesRegex(regex::bytes::Regex);

#[verifier::external_type_specification]
#[verifier::external_body]
pub struct ExRegexError(regex::Error);

/// Whether `regex::Regex::new` accepts the pattern.
pub uninterp spec fn regex_compiles(pattern: Seq<char>) -> bool;

/// Whether a `regex::Regex` built from `pattern` finds a match anywhere in `haystack`.
pub uninterp spec fn regex_search(pattern: Seq<char>, haystack: Seq<char>) -> bool;

/// Whether `regex::bytes::Regex::new` accepts the pattern.
pub uninterp spec fn bytes_regex_compiles(pattern: Seq<char>) -> bool;

/// Whether a `regex::bytes::Regex` built from `pattern` finds a match anywhere in `haystack`.
pub uninterp spec fn bytes_regex_search(pattern: Seq<char>, haystack: Seq<u8>) -> bool;

/// Relies on `std::str::from_utf8`: `Ok` exactly when the bytes are valid UTF-8,
/// and then a string slice holding the characters those bytes encode.
#[verifier::external_body]
pub(crate) fn str_from_utf8(bytes: &[u8]) -> (r: Result<&str, core::str::Utf8Error>)
    ensures
        r is Ok <==> valid_utf8(bytes@),
        r matches Ok(s) ==> s@ == decode_utf8(bytes@),
{
    core::str::from_utf8(bytes)
}

/// A compiled text regex together with the pattern it was compiled from.
///
/// Values of this type are only made by `TextRegex::compile`, so that
/// `regex` always holds the compilation of `pattern`.
pub struct TextRegex {
    pattern: String,
    regex: regex::Regex,
}

impl TextRegex {
    /// The pattern this regex was compiled from.
    pub closed spec fn pattern(&self) -> Seq<char> {
        self.pattern@
    }

    /// Relies on `regex::Regex::new`: it fails exactly on the patterns it rejects.
    #[verifier::external_body]
    pub(crate) fn compile(pattern: &str) -> (r: Result<TextRegex, regex::Error>)
        ensures
            r is Ok <==> regex_compiles(pattern@),
            r matches Ok(t) ==> t.pattern() == pattern@,
    {
        match regex::Regex::new(pattern) {
            Ok(regex) => Ok(TextRegex { pattern: pattern.to_string(), regex }),
            Err(e) => Err(e),
        }
    }

    /// Relies on `regex::Regex::is_match`: whether the regex matches somewhere in `text`.
    #[verifier::external_body]
    pub(crate) fn is_match(&self, text: &str) -> (r: bool)
        ensures
            r == regex_search(self.pattern(), text@),
    {
        self.regex.is_match(text)
    }
}

/// A compiled byte regex together with the pattern it was compiled from.
///
/// Values of this type are only made by `BytesRegex::compile`, so that
/// `regex` always holds the compilation of `pattern`.
pub struct BytesRegex {
    pattern: String,
    regex: regex::bytes::Regex,
}

impl BytesRegex {
    /// The pattern this regex was compiled from.
    pub closed spec fn pattern(&self) -> Seq<char> {
        self.pattern@
    }

    /// Relies on `regex::bytes::Regex::new`: it fails exactly on the patterns it rejects.
    #[verifier::external_body]
    pub(crate) fn compile(pattern: &str) -> (r: Result<BytesRegex, regex::Error>)
        ensures
            r is Ok <==> bytes_regex_compiles(pattern@),
            r matches Ok(t) ==> t.pattern() == pattern@,
    {
        match regex::bytes::Regex::new(pattern) {
            Ok(regex) => Ok(BytesRegex { pattern: pattern.to_string(), regex }),
            Err(e) => Err(e),
        }
    }

    /// Relies on `regex::bytes::Regex::is_match`: whether the regex matches somewhere in `text`.
    #[verifier::external_body]
    pub(crate) fn is_match(&self, text: &[u8]) -> (r: bool)
        ensures
            r == bytes_regex_search(self.pattern(), text@),
    {
        self.regex.is_match(text)
    }
}

} // verus!
