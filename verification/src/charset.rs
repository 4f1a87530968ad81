//! Turning the bytes of a fetched page into text: UTF-8 or GBK, chosen by
//! the `Content-Type` header, else by a `charset=` in the page's head, else
//! by whether the bytes are valid UTF-8.
use vstd::prelude::*;
use vstd::utf8::{decode_utf8, valid_utf8};

use crate::text::{has_infix, str_contains};

verus! {

/// The text as std's `str::to_lowercase` gives it.
pub uninterp spec fn lowercase(s: Seq<char>) -> Seq<char>;

/// The bytes decoded as UTF-8 with every invalid sequence replaced by
/// U+FFFD, as std's `String::from_utf8_lossy` gives it.
pub uninterp spec fn utf8_lossy(bytes: Seq<u8>) -> Seq<char>;

/// The bytes decoded by encoding_rs as GBK (a UTF-8 or UTF-16 byte order mark
/// takes precedence; malformed sequences become U+FFFD).
pub uninterp spec fn gbk_decoded(bytes: Seq<u8>) -> Seq<char>;

/// std's `str::to_lowercase`.
#[verifier::external_body]
pub(crate) fn to_lowercase(s: &str) -> (r: String)
    ensures
        r@ == lowercase(s@),
{
    s.to_lowercase()
}

/// std's `String::from_utf8_lossy`.
#[verifier::external_body]
pub(crate) fn from_utf8_lossy(bytes: &[u8]) -> (r: String)
    ensures
        r@ == utf8_lossy(bytes@),
{
    String::from_utf8_lossy(bytes).into_owned()
}

/// std's `str::from_utf8`: the text when the bytes are valid UTF-8.
#[verifier::external_body]
pub(crate) fn from_utf8(bytes: &[u8]) -> (r: Option<String>)
    ensures
        r is Some <==> valid_utf8(bytes@),
        r matches Some(s) ==> s@ == decode_utf8(bytes@),
{
    std::str::from_utf8(bytes).ok().map(String::from)
}

/// encoding_rs: `GBK.decode(bytes)`, the decoded text.
#[verifier::external_body]
pub(crate) fn decode_gbk(bytes: &[u8]) -> (r: String)
    ensures
        r@ == gbk_decoded(bytes@),
{
    encoding_rs::GBK.decode(bytes).0.into_owned()
}

/// Why a page could not be decoded.
#[derive(Clone, Copy, Debug, PartialEq, Eq, Structural)]
pub enum DecodeError {
    /// The page declared UTF-8 but its bytes are not valid UTF-8.
    InvalidUtf8,
}

/// How many bytes of the page are searched for a declared charset.
pub const PROBE_LEN: usize = 4096;

pub open spec fn declares_utf8(t: Seq<char>) -> bool {
    has_infix(t, "charset=utf-8"@)
}

pub open spec fn declares_utf8_quoted(t: Seq<char>) -> bool {
    has_infix(t, "charset=\"utf-8\""@)
}

pub open spec fn declares_gbk(t: Seq<char>) -> bool {
    has_infix(t, "charset=gbk"@) || has_infix(t, "charset=gb2312"@) || has_infix(
        t,
        "charset=gb18030"@,
    )
}

pub open spec fn strict_utf8(bytes: Seq<u8>) -> Result<Seq<char>, DecodeError> {
    if valid_utf8(bytes) {
        Ok(decode_utf8(bytes))
    } else {
        Err(DecodeError::InvalidUtf8)
    }
}

/// How a page is decoded.
#[derive(Clone, Copy, Debug, PartialEq, Eq, Structural)]
pub enum Decoding {
    /// As UTF-8; invalid bytes are an error.
    Utf8,
    /// As GBK.
    Gbk,
    /// As UTF-8 when the bytes are valid UTF-8, else as GBK.
    Sniff,
}

/// The decoding chosen from the lower-cased `Content-Type` value and the
/// lower-cased head of the page: a charset the header names wins (UTF-8
/// first), then one the head names, else the bytes decide.
pub open spec fn decoding_for(ct: Seq<char>, probe: Seq<char>) -> Decoding {
    if declares_utf8(ct) || declares_utf8_quoted(ct) {
        Decoding::Utf8
    } else if declares_gbk(ct) {
        Decoding::Gbk
    } else if declares_utf8(probe) {
        Decoding::Utf8
    } else if declares_gbk(probe) {
        Decoding::Gbk
    } else {
        Decoding::Sniff
    }
}

/// The text of the bytes under a decoding.
pub open spec fn decoded(d: Decoding, bytes: Seq<u8>) -> Result<Seq<char>, DecodeError> {
    match d {
        Decoding::Utf8 => strict_utf8(bytes),
        Decoding::Gbk => Ok(gbk_decoded(bytes)),
        Decoding::Sniff => if valid_utf8(bytes) {
            Ok(decode_utf8(bytes))
        } else {
            Ok(gbk_decoded(bytes))
        },
    }
}

/// The first bytes of a page, where a charset declaration is looked for.
pub open spec fn probe_of(bytes: Seq<u8>) -> Seq<char> {
    let n = if bytes.len() < PROBE_LEN {
        bytes.len() as int
    } else {
        PROBE_LEN as int
    };
    lowercase(utf8_lossy(bytes.take(n)))
}

/// The text of a page with header `Content-Type` value `content_type`.
pub open spec fn page_text(content_type: Seq<char>, bytes: Seq<u8>) -> Result<Seq<char>, DecodeError> {
    decoded(decoding_for(lowercase(content_type), probe_of(bytes)), bytes)
}

fn mentions_gbk(t: &str) -> (r: bool)
    ensures
        r == declares_gbk(t@),
{
    str_contains(t, "charset=gbk") || str_contains(t, "charset=gb2312") || str_contains(
        t,
        "charset=gb18030",
    )
}

/// Chooses the decoding (see `decoding_for`).
pub fn charset_choice(content_type_lower: &str, probe_lower: &str) -> (r: Decoding)
    ensures
        r == decoding_for(content_type_lower@, probe_lower@),
{
    if str_contains(content_type_lower, "charset=utf-8") || str_contains(
        content_type_lower,
        "charset=\"utf-8\"",
    ) {
        Decoding::Utf8
    } else if mentions_gbk(content_type_lower) {
        Decoding::Gbk
    } else if str_contains(probe_lower, "charset=utf-8") {
        Decoding::Utf8
    } else if mentions_gbk(probe_lower) {
        Decoding::Gbk
    } else {
        Decoding::Sniff
    }
}

/// Decodes a fetched page (see `page_text`).
pub fn decode_page(content_type: &str, bytes: &[u8]) -> (r: Result<String, DecodeError>)
    ensures
        match r {
            Ok(s) => page_text(content_type@, bytes@) == Ok::<Seq<char>, DecodeError>(s@),
            Err(e) => page_text(content_type@, bytes@) == Err::<Seq<char>, DecodeError>(e),
        },
{
    let ct = to_lowercase(content_type);
    let n = if bytes.len() < PROBE_LEN {
        bytes.len()
    } else {
        PROBE_LEN
    };
    let mut head: Vec<u8> = Vec::new();
    let mut i: usize = 0;
    while i < n
        invariant
            n <= bytes@.len(),
            i <= n,
            head@ == bytes@.take(i as int),
        decreases n - i,
    {
        head.push(bytes[i]);
        assert(bytes@.take(i + 1) =~= bytes@.take(i as int).push(bytes@[i as int]));
        i = i + 1;
    }
    let lossy = from_utf8_lossy(head.as_slice());
    let probe = to_lowercase(lossy.as_str());
    match charset_choice(ct.as_str(), probe.as_str()) {
        Decoding::Utf8 => match from_utf8(bytes) {
            Some(s) => Ok(s),
            None => Err(DecodeError::InvalidUtf8),
        },
        Decoding::Gbk => Ok(decode_gbk(bytes)),
        Decoding::Sniff => match from_utf8(bytes) {
            Some(s) => Ok(s),
            None => Ok(decode_gbk(bytes)),
        },
    }
}

} // verus!
