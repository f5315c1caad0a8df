//! The calls this library makes into the `url` crate. A URL is carried
//! around as its serialization (what `Url`'s `Display` prints); each
//! function here parses its text with `Url::parse` and makes one call.
use vstd::prelude::*;

verus! {

broadcast use vstd::string::group_string_axioms;

/// What `Url::parse` gives for a text: `Ok` with the serialization of the
/// parsed URL, or `Err` with the message of the parse error.
pub uninterp spec fn parsed_url(s: Seq<char>) -> Result<Seq<char>, Seq<char>>;

/// What `Url::join` gives for a base URL text (parsed with `Url::parse`)
/// and a reference: the serialization of the resolved URL, or `None` when
/// either step fails.
pub uninterp spec fn joined_url(base: Seq<char>, input: Seq<char>) -> Option<Seq<char>>;

/// `Url::host_str` of a parsed URL text (`None` also when it does not parse).
pub uninterp spec fn url_host_of(s: Seq<char>) -> Option<Seq<char>>;

/// `Url::path` of a parsed URL text (`None` when it does not parse).
pub uninterp spec fn url_path_of(s: Seq<char>) -> Option<Seq<char>>;

/// `Url::scheme` of a parsed URL text (`None` when it does not parse).
pub uninterp spec fn url_scheme_of(s: Seq<char>) -> Option<Seq<char>>;

/// `Url::origin().ascii_serialization()` of a parsed URL text (`None` when
/// it does not parse).
pub uninterp spec fn url_origin_of(s: Seq<char>) -> Option<Seq<char>>;

/// The serialization after `query_pairs_mut().append_pair(key, value)` on
/// the URL parsed from `url` (the text itself when it does not parse).
pub uninterp spec fn url_with_pair(url: Seq<char>, key: Seq<char>, value: Seq<char>) -> Seq<char>;

/// `url::Url::parse`, the result converted to text (the `Display` of the
/// URL, or of the parse error). The contract claims only that the result is
/// a function of the input text.
#[verifier::external_body]
pub(crate) fn parse_url(s: &str) -> (r: Result<String, String>)
    ensures
        match r {
            Ok(u) => parsed_url(s@) == Ok::<Seq<char>, Seq<char>>(u@),
            Err(e) => parsed_url(s@) == Err::<Seq<char>, Seq<char>>(e@),
        },
{
    match url::Url::parse(s) {
        Ok(u) => Ok(u.to_string()),
        Err(e) => Err(e.to_string()),
    }
}

/// `url::Url::join` of `input` against the URL parsed from `base`, the
/// result as text. The contract claims only that the result is a function
/// of the two texts.
#[verifier::external_body]
pub(crate) fn join_url(base: &str, input: &str) -> (r: Option<String>)
    ensures
        match r {
            Some(u) => joined_url(base@, input@) == Some(u@),
            None => joined_url(base@, input@) is None,
        },
{
    match url::Url::parse(base).and_then(|b| b.join(input)) {
        Ok(u) => Some(u.to_string()),
        Err(_) => None,
    }
}

/// `url::Url::host_str` of the URL parsed from `s`. The contract claims
/// only that the result is a function of the text.
#[verifier::external_body]
pub(crate) fn url_host(s: &str) -> (r: Option<String>)
    ensures
        match r {
            Some(h) => url_host_of(s@) == Some(h@),
            None => url_host_of(s@) is None,
        },
{
    match url::Url::parse(s) {
        Ok(u) => u.host_str().map(|h| h.to_string()),
        Err(_) => None,
    }
}

/// `url::Url::path` of the URL parsed from `s`. The contract claims only
/// that the result is a function of the text.
#[verifier::external_body]
pub(crate) fn url_path(s: &str) -> (r: Option<String>)
    ensures
        match r {
            Some(p) => url_path_of(s@) == Some(p@),
            None => url_path_of(s@) is None,
        },
{
    match url::Url::parse(s) {
        Ok(u) => Some(u.path().to_string()),
        Err(_) => None,
    }
}

/// `url::Url::scheme` of the URL parsed from `s`. The contract claims only
/// that the result is a function of the text.
#[verifier::external_body]
pub(crate) fn url_scheme(s: &str) -> (r: Option<String>)
    ensures
        match r {
            Some(p) => url_scheme_of(s@) == Some(p@),
            None => url_scheme_of(s@) is None,
        },
{
    match url::Url::parse(s) {
        Ok(u) => Some(u.scheme().to_string()),
        Err(_) => None,
    }
}

/// `url::Url::origin` of the URL parsed from `s`, in its ASCII
/// serialization. The contract claims only that the result is a function of
/// the text.
#[verifier::external_body]
pub(crate) fn url_origin(s: &str) -> (r: Option<String>)
    ensures
        match r {
            Some(p) => url_origin_of(s@) == Some(p@),
            None => url_origin_of(s@) is None,
        },
{
    match url::Url::parse(s) {
        Ok(u) => Some(u.origin().ascii_serialization()),
        Err(_) => None,
    }
}

/// `url::Url::query_pairs_mut().append_pair(key, value)` on the URL parsed
/// from `url`, the result as text; a text that does not parse comes back
/// unchanged. The contract claims only that the result is a function of the
/// three texts.
#[verifier::external_body]
pub(crate) fn append_query_pair(url: &str, key: &str, value: &str) -> (r: String)
    ensures
        r@ == url_with_pair(url@, key@, value@),
{
    match url::Url::parse(url) {
        Ok(mut u) => {
            u.query_pairs_mut().append_pair(key, value);
            u.to_string()
        },
        Err(_) => url.to_string(),
    }
}

/// Bytes that `application/x-www-form-urlencoded` leaves as they are:
/// `*`, `-`, `.`, `_`, ASCII digits and letters.
pub open spec fn form_unchanged(b: u8) -> bool {
    b == 0x2a || b == 0x2d || b == 0x2e || b == 0x5f || (0x30 <= b <= 0x39) || (0x41 <= b <= 0x5a)
        || (0x61 <= b <= 0x7a)
}

/// Upper-case hexadecimal digit for `d < 16`.
pub open spec fn hex_upper(d: u8) -> char {
    if d < 10 {
        ((d as u32) + 0x30) as char
    } else {
        ((d as u32) + 0x37) as char
    }
}

/// The encoding of one byte: itself, `+` for a space, else `%XX`.
pub open spec fn form_byte(b: u8) -> Seq<char> {
    if form_unchanged(b) {
        seq![b as char]
    } else if b == 0x20 {
        seq!['+']
    } else {
        seq!['%', hex_upper(b / 16), hex_upper(b % 16)]
    }
}

/// `form_urlencoded::byte_serialize`: the concatenated encodings of the
/// bytes.
pub open spec fn form_encoded(bytes: Seq<u8>) -> Seq<char>
    decreases bytes.len(),
{
    if bytes.len() == 0 {
        Seq::empty()
    } else {
        form_encoded(bytes.drop_last()) + form_byte(bytes.last())
    }
}

/// `url::form_urlencoded::byte_serialize` of the UTF-8 bytes of `s`,
/// collected into a string: each of `*-._`, ASCII digits and letters is
/// kept, a space becomes `+`, and any other byte becomes `%XX` with
/// upper-case hex digits.
#[verifier::external_body]
pub(crate) fn form_urlencode(s: &str) -> (r: String)
    ensures
        r@ == form_encoded(vstd::utf8::encode_utf8(s@)),
{
    url::form_urlencoded::byte_serialize(s.as_bytes()).collect()
}

} // verus!
