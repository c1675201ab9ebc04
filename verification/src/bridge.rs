//! Calls into other crates and into the parts of std that carry no contract of
//! their own. What is claimed of each call here is not proved.

use vstd::prelude::*;
use vstd::utf8::{decode_utf8, encode_utf8, is_ascii_chars, valid_utf8};

use crate::percent::{form_encoded, percent_decoded};
use crate::repo::span::is_ws;
use crate::repo::splice::is_literal;
use crate::text::{ascending, opt_text, texts};

verus! {

// ---------------------------------------------------------------------------
// std

/// The lowercase form of a text.
pub uninterp spec fn lowercase(s: Seq<char>) -> Seq<char>;

/// The ASCII lowercase of one character.
pub open spec fn ascii_lower(c: char) -> char {
    if 'A' <= c <= 'Z' {
        (c as int + 32) as char
    } else {
        c
    }
}

/// `str::to_lowercase`: a function of the text alone, which on ASCII text maps
/// each letter to its small form and keeps the rest.
#[verifier::external_body]
pub(crate) fn to_lowercase(s: &str) -> (r: String)
    ensures
        r@ == lowercase(s@),
        is_ascii_chars(s@) ==> r@ == s@.map_values(|c: char| ascii_lower(c)),
{
    s.to_lowercase()
}

/// `String::from_utf8`: succeeds exactly on valid UTF-8, and the text's encoding
/// is then the bytes given.
#[verifier::external_body]
pub(crate) fn string_from_utf8(v: Vec<u8>) -> (r: Option<String>)
    ensures
        match r {
            Some(s) => encode_utf8(s@) == v@,
            None => !valid_utf8(v@),
        },
{
    String::from_utf8(v).ok()
}

/// A text in quotes, with what cannot stand there escaped.
pub uninterp spec fn debug_text(s: Seq<char>) -> Seq<char>;

/// A printable ASCII character that needs no escape inside quotes.
pub open spec fn is_plain(c: char) -> bool {
    ' ' <= c <= '~' && c != '"' && c != '\\'
}

/// The `Debug` form of a string: a function of the text alone, which puts plain
/// text into quotes as it is.
#[verifier::external_body]
pub(crate) fn debug_string(s: &str) -> (r: String)
    ensures
        r@ == debug_text(s@),
        (forall|i: int| 0 <= i < s@.len() ==> is_plain(#[trigger] s@[i])) ==> r@ == "\""@ + s@ + "\""@,
{
    format!("{:?}", s)
}

/// The text that bytes stand for, what is not UTF-8 replaced.
pub uninterp spec fn lossy_text(v: Seq<u8>) -> Seq<char>;

/// `String::from_utf8_lossy`: a function of the bytes alone, which decodes valid
/// UTF-8 as it is.
#[verifier::external_body]
pub(crate) fn from_utf8_lossy(v: &[u8]) -> (r: String)
    ensures
        r@ == lossy_text(v@),
        valid_utf8(v@) ==> r@ == decode_utf8(v@),
{
    String::from_utf8_lossy(v).into_owned()
}

// ---------------------------------------------------------------------------
// percent-encoding

/// `percent_encoding::percent_decode_str` followed by `decode_utf8`: every percent
/// sign that two hexadecimal digits follow is replaced, with them, by the byte that
/// they stand for, and all else stays; the bytes are then read as UTF-8, where they
/// are.
#[verifier::external_body]
pub(crate) fn percent_decode(s: &str) -> (r: Option<String>)
    ensures
        opt_text(r) == percent_decoded(s@),
{
    match percent_encoding::percent_decode_str(s).decode_utf8() {
        Ok(decoded) => Some(decoded.into_owned()),
        Err(_) => None,
    }
}

// ---------------------------------------------------------------------------
// form_urlencoded

/// The name and value pairs of a query string.
pub uninterp spec fn form_pairs(query: Seq<char>) -> Seq<(Seq<char>, Seq<char>)>;

/// `form_urlencoded::parse`: a function of the query alone.
#[verifier::external_body]
pub(crate) fn parse_form(query: &str) -> (r: Vec<(String, String)>)
    ensures
        pairs(r@) == form_pairs(query@),
{
    form_urlencoded::parse(query.as_bytes())
        .map(|(k, v)| (k.into_owned(), v.into_owned()))
        .collect()
}

/// A letter or a digit, of ASCII.
pub open spec fn is_alphanumeric(c: char) -> bool {
    'a' <= c <= 'z' || 'A' <= c <= 'Z' || '0' <= c <= '9'
}

/// `form_urlencoded::byte_serialize`: byte by byte, letters, digits and `*-._` as they
/// are, a space as a plus sign, and the rest as a percent sign and two capital
/// hexadecimal digits.
#[verifier::external_body]
pub(crate) fn form_encode(s: &str) -> (r: String)
    ensures
        r@ == form_encoded(s@),
{
    form_urlencoded::byte_serialize(s.as_bytes()).collect()
}

// ---------------------------------------------------------------------------
// subtle

/// `subtle::ConstantTimeEq::ct_eq` of two byte strings: whether they are equal.
#[verifier::external_body]
pub(crate) fn bytes_equal(a: &[u8], b: &[u8]) -> (r: bool)
    ensures
        r == (a@ == b@),
{
    bool::from(subtle::ConstantTimeEq::ct_eq(a, b))
}

// ---------------------------------------------------------------------------
// serde_json

/// The views of name and raw text of each member.
pub open spec fn pairs(v: Seq<(String, String)>) -> Seq<(Seq<char>, Seq<char>)> {
    v.map_values(|p: (String, String)| (p.0@, p.1@))
}

/// The first components of a sequence of pairs.
pub open spec fn firsts<A, B>(v: Seq<(A, B)>) -> Seq<A> {
    v.map_values(|p: (A, B)| p.0)
}

/// The members of the JSON object that `body` holds, by name, each value as its
/// raw text; nothing where `body` is not one JSON object.
pub uninterp spec fn json_object(body: Seq<u8>) -> Option<Seq<(Seq<char>, Seq<char>)>>;

/// `serde_json::from_slice` into a `BTreeMap` from names to raw values: a
/// function of the bytes alone, with the members in ascending order of name.
#[verifier::external_body]
pub(crate) fn parse_object(body: &[u8]) -> (r: Option<Vec<(String, String)>>)
    ensures
        match r {
            Some(v) => json_object(body@) == Some(pairs(v@)) && ascending(firsts(pairs(v@))),
            None => json_object(body@) is None,
        },
{
    let parsed: Result<std::collections::BTreeMap<String, Box<serde_json::value::RawValue>>, _> =
        serde_json::from_slice(body);
    match parsed {
        Ok(map) => Some(map.into_iter().map(|(k, v)| (k, v.get().to_string())).collect()),
        Err(_) => None,
    }
}

/// The members of the JSON object of strings that `body` holds; nothing where
/// `body` is not one JSON object whose values are all strings.
pub uninterp spec fn json_string_map(body: Seq<u8>) -> Option<Seq<(Seq<char>, Seq<char>)>>;

/// `serde_json::from_slice` into a `BTreeMap` from strings to strings: a function
/// of the bytes alone, with the members in ascending order of name.
#[verifier::external_body]
pub(crate) fn parse_string_map(body: &[u8]) -> (r: Option<Vec<(String, String)>>)
    ensures
        match r {
            Some(v) => json_string_map(body@) == Some(pairs(v@)) && ascending(firsts(pairs(v@))),
            None => json_string_map(body@) is None,
        },
{
    let parsed: Result<std::collections::BTreeMap<String, String>, _> =
        serde_json::from_slice(body);
    match parsed {
        Ok(map) => Some(map.into_iter().collect()),
        Err(_) => None,
    }
}

/// The text that the JSON string literal `body` stands for; nothing where `body`
/// is not one JSON string.
pub uninterp spec fn json_string(body: Seq<u8>) -> Option<Seq<char>>;

/// `serde_json::from_slice` into a `String`: a function of the bytes alone. What is
/// read starts with a quote, white space before it aside.
#[verifier::external_body]
pub(crate) fn parse_string(body: &[u8]) -> (r: Option<String>)
    ensures
        opt_text(r) == json_string(body@),
        r is Some && body@.len() > 0 && !is_ws(body@[0]) ==> body@[0] == 0x22,
{
    serde_json::from_slice::<String>(body).ok()
}

/// The JSON string literal for a text.
pub uninterp spec fn json_literal(s: Seq<char>) -> Seq<char>;

/// `serde_json::to_string` of a string: a function of the text alone, and a
/// literal that `serde_json::from_slice` reads back as the text. The only quotes in it
/// that are not escaped are the first and the last byte.
#[verifier::external_body]
pub(crate) fn quote(s: &str) -> (r: String)
    ensures
        r@ == json_literal(s@),
        json_string(encode_utf8(r@)) == Some(s@),
        is_literal(encode_utf8(r@)),
{
    serde_json::to_string(s).unwrap_or_default()
}

/// The raw JSON value that a text holds, without the white space around it;
/// nothing where the text is not one JSON value.
pub uninterp spec fn json_raw(s: Seq<char>) -> Option<Seq<char>>;

/// `serde_json::value::RawValue::from_string`: a function of the text alone.
#[verifier::external_body]
pub(crate) fn raw_value(s: String) -> (r: Option<String>)
    ensures
        opt_text(r) == json_raw(s@),
{
    match serde_json::value::RawValue::from_string(s) {
        Ok(raw) => Some(raw.get().to_string()),
        Err(_) => None,
    }
}

/// The members of the JSON object that `body` holds, by name, each value in
/// compact form; nothing where `body` is not one JSON object.
pub uninterp spec fn json_values(body: Seq<u8>) -> Option<Seq<(Seq<char>, Seq<char>)>>;

/// `serde_json::from_slice` into a `serde_json::Map`, each value written by its
/// `Display`: a function of the bytes alone, with the members in the order in which
/// the document first names them, and no name twice.
#[verifier::external_body]
pub(crate) fn parse_values(body: &[u8]) -> (r: Option<Vec<(String, String)>>)
    ensures
        match r {
            Some(v) => json_values(body@) == Some(pairs(v@)) && firsts(pairs(v@)).no_duplicates(),
            None => json_values(body@) is None,
        },
{
    let parsed: Result<serde_json::Map<String, serde_json::Value>, _> =
        serde_json::from_slice(body);
    match parsed {
        Ok(map) => Some(map.into_iter().map(|(k, v)| (k, v.to_string())).collect()),
        Err(_) => None,
    }
}

/// The items of the JSON array that `body` holds, each in compact form; nothing where
/// `body` is not one JSON array.
pub uninterp spec fn json_array(body: Seq<u8>) -> Option<Seq<Seq<char>>>;

/// `serde_json::from_slice` into a `Vec` of `serde_json::Value`, each item written by
/// its `Display`: a function of the bytes alone.
#[verifier::external_body]
pub(crate) fn parse_array(body: &[u8]) -> (r: Option<Vec<String>>)
    ensures
        match r {
            Some(v) => json_array(body@) == Some(texts(v@)),
            None => json_array(body@) is None,
        },
{
    match serde_json::from_slice::<Vec<serde_json::Value>>(body) {
        Ok(items) => Some(items.into_iter().map(|i| i.to_string()).collect()),
        Err(_) => None,
    }
}

/// The strings of the JSON array that `body` holds; nothing where `body` is not
/// one JSON array of strings.
pub uninterp spec fn json_string_list(body: Seq<u8>) -> Option<Seq<Seq<char>>>;

/// `serde_json::from_slice` into a `Vec` of strings: a function of the bytes
/// alone.
#[verifier::external_body]
pub(crate) fn parse_string_list(body: &[u8]) -> (r: Option<Vec<String>>)
    ensures
        match r {
            Some(v) => json_string_list(body@) == Some(texts(v@)),
            None => json_string_list(body@) is None,
        },
{
    serde_json::from_slice::<Vec<String>>(body).ok()
}

// ---------------------------------------------------------------------------
// sha1, sha2 and hex

/// The SHA-1 digest of a message.
pub uninterp spec fn sha1_digest(v: Seq<u8>) -> Seq<u8>;

/// `sha1::Sha1::digest`: twenty bytes that are a function of the message alone.
#[verifier::external_body]
pub(crate) fn sha1(v: &[u8]) -> (r: Vec<u8>)
    ensures
        r@ == sha1_digest(v@),
        r@.len() == 20,
{
    <sha1::Sha1 as sha1::Digest>::digest(v).to_vec()
}

/// The SHA-256 digest of a message.
pub uninterp spec fn sha256_digest(v: Seq<u8>) -> Seq<u8>;

/// `sha2::Sha256::digest`: thirty-two bytes that are a function of the message
/// alone.
#[verifier::external_body]
pub(crate) fn sha256(v: &[u8]) -> (r: Vec<u8>)
    ensures
        r@ == sha256_digest(v@),
        r@.len() == 32,
{
    <sha2::Sha256 as sha2::Digest>::digest(v).to_vec()
}

/// The small hexadecimal digit for `n`.
pub open spec fn hex_digit(n: int) -> char {
    if n < 10 {
        ('0' as int + n) as char
    } else {
        ('a' as int + n - 10) as char
    }
}

/// Two small hexadecimal digits for each byte.
pub open spec fn hex_text(v: Seq<u8>) -> Seq<char> {
    Seq::new(
        2 * v.len(),
        |i: int|
            if i % 2 == 0 {
                hex_digit(v[i / 2] as int / 16)
            } else {
                hex_digit(v[i / 2] as int % 16)
            },
    )
}

/// `hex::encode`: two small hexadecimal digits for each byte, the upper half
/// first.
#[verifier::external_body]
pub(crate) fn hex(v: &[u8]) -> (r: String)
    ensures
        r@ == hex_text(v@),
{
    hex::encode(v)
}

// ---------------------------------------------------------------------------
// chrono and httpdate

/// The instant that an RFC 3339 text names, in whole seconds from the Unix epoch
/// and the nanoseconds on top; nothing where the text is no such timestamp.
pub uninterp spec fn rfc3339_parts(s: Seq<char>) -> Option<(int, int)>;

/// `chrono::DateTime::parse_from_rfc3339`, with `timestamp` and
/// `timestamp_subsec_nanos` of the result: a function of the text alone. The
/// nanoseconds pass one second only inside a leap second.
#[verifier::external_body]
pub(crate) fn parse_rfc3339_parts(s: &str) -> (r: Option<(i64, u32)>)
    ensures
        match r {
            Some((secs, nanos)) => rfc3339_parts(s@) == Some((secs as int, nanos as int))
                && -200_000_000_000_000 <= secs <= 200_000_000_000_000 && nanos < 2_000_000_000,
            None => rfc3339_parts(s@) is None,
        },
{
    match chrono::DateTime::parse_from_rfc3339(s) {
        Ok(t) => Some((t.timestamp(), t.timestamp_subsec_nanos())),
        Err(_) => None,
    }
}

/// The instant that an HTTP date names, in seconds from the Unix epoch; nothing
/// where the text is no HTTP date of 1970 or later.
pub uninterp spec fn http_date_seconds(s: Seq<char>) -> Option<int>;

/// `httpdate::parse_http_date`, as seconds from the Unix epoch: a function of the
/// text alone. The years go from 1970 to 9999.
#[verifier::external_body]
pub(crate) fn parse_http_date(s: &str) -> (r: Option<u64>)
    ensures
        match r {
            Some(secs) => http_date_seconds(s@) == Some(secs as int) && secs <= 253_402_300_799,
            None => http_date_seconds(s@) is None,
        },
{
    match httpdate::parse_http_date(s) {
        Ok(t) => match t.duration_since(std::time::UNIX_EPOCH) {
            Ok(d) => Some(d.as_secs()),
            Err(_) => None,
        },
        Err(_) => None,
    }
}

// ---------------------------------------------------------------------------
// http

/// A character that may stand in the value of a header.
pub open spec fn is_header_char(c: char) -> bool {
    c == '\t' || (c >= ' ' && c != '\u{7f}')
}

/// Every character of `s` may stand in the value of a header.
pub open spec fn is_header_value(s: Seq<char>) -> bool {
    forall|i: int| 0 <= i < s.len() ==> is_header_char(#[trigger] s[i])
}

/// Whether `http::HeaderValue::from_str` takes the text: it refuses control
/// characters of ASCII other than the tab, and takes everything else.
#[verifier::external_body]
pub(crate) fn header_value_ok(s: &str) -> (r: bool)
    ensures
        r == is_header_value(s@),
{
    http::HeaderValue::from_str(s).is_ok()
}

/// A character that may stand in the name of a header.
pub open spec fn is_token_char(c: char) -> bool {
    is_alphanumeric(c) || c == '!' || c == '#' || c == '$' || c == '%' || c == '&' || c == '\''
        || c == '*' || c == '+' || c == '-' || c == '.' || c == '^' || c == '_' || c == '`'
        || c == '|' || c == '~'
}

/// The name of a header in small letters; nothing where the text is no such name.
pub open spec fn header_name_of(s: Seq<char>) -> Option<Seq<char>> {
    if 0 < s.len() <= 65535 && forall|i: int| 0 <= i < s.len() ==> is_token_char(#[trigger] s[i]) {
        Some(s.map_values(|c: char| ascii_lower(c)))
    } else {
        None
    }
}

/// `http::HeaderName::from_str`: the name in small letters, where the text is a
/// token of at most 65535 characters.
#[verifier::external_body]
pub(crate) fn header_name(s: &str) -> (r: Option<String>)
    ensures
        opt_text(r) == header_name_of(s@),
{
    match s.parse::<http::HeaderName>() {
        Ok(name) => Some(name.as_str().to_string()),
        Err(_) => None,
    }
}

/// The header map of the `http` crate, as it is.
#[verifier::external_type_specification]
#[verifier::external_body]
#[verifier::reject_recursive_types(T)]
pub struct HeaderMapSpecification<T>(http::HeaderMap<T>);

/// The header value of the `http` crate, as it is.
#[verifier::external_type_specification]
#[verifier::external_body]
pub struct HeaderValueSpecification(http::HeaderValue);

/// The names in a header map, in small letters, and the bytes of the first value of
/// each.
pub uninterp spec fn header_fields(headers: http::HeaderMap) -> Map<Seq<char>, Seq<u8>>;

/// How many names a header map holds at the most before one is inserted here. The map
/// grows without complaint well beyond this.
pub const MAX_HEADER_FIELDS: usize = 4096;

/// No headers.
pub open spec fn no_fields() -> Map<Seq<char>, Seq<u8>> {
    Map::empty()
}

/// `http::HeaderMap::new`: no headers.
#[verifier::external_body]
pub(crate) fn new_headers() -> (r: http::HeaderMap)
    ensures
        header_fields(r) == no_fields(),
{
    http::HeaderMap::new()
}

/// `http::HeaderMap::insert`, with the name and the value made of texts: the value takes
/// the place of all that stood under the name. It panics where the map would outgrow its
/// largest size, which one of so few names is far from.
#[verifier::external_body]
pub(crate) fn insert_header(headers: &mut http::HeaderMap, name: &str, value: &str)
    requires
        header_name_of(name@) == Some(name@),
        is_header_value(value@),
        header_fields(*old(headers)).dom().finite(),
        header_fields(*old(headers)).dom().len() < MAX_HEADER_FIELDS,
    ensures
        header_fields(*final(headers)) == header_fields(*old(headers)).insert(
            name@,
            encode_utf8(value@),
        ),
{
    if let (Ok(n), Ok(v)) = (name.parse::<http::HeaderName>(), http::HeaderValue::from_str(value)) {
        headers.insert(n, v);
    }
}

/// `m` without what stands under the name that a text is read as.
pub open spec fn without_field(m: Map<Seq<char>, Seq<u8>>, name: Seq<char>) -> Map<
    Seq<char>,
    Seq<u8>,
> {
    match header_name_of(name) {
        Some(n) => m.remove(n),
        None => m,
    }
}

/// `http::HeaderMap::remove`, with the name made of a text: nothing stands under the
/// name any more. A text that is no name is the name of nothing.
#[verifier::external_body]
pub(crate) fn remove_header(headers: &mut http::HeaderMap, name: &str)
    ensures
        header_fields(*final(headers)) == without_field(header_fields(*old(headers)), name@),
{
    if let Ok(n) = name.parse::<http::HeaderName>() {
        headers.remove(n);
    }
}

// ---------------------------------------------------------------------------
// base64

/// The standard base64 form of bytes, padded.
pub uninterp spec fn base64_text(v: Seq<u8>) -> Seq<char>;

/// The bytes that a text of standard base64 stands for; nothing where it is none.
pub uninterp spec fn base64_bytes(s: Seq<char>) -> Option<Seq<u8>>;

/// `base64::Engine::encode` of the standard engine: a function of the bytes alone,
/// whose result the same engine decodes to the bytes again.
#[verifier::external_body]
pub(crate) fn base64_encode(v: &[u8]) -> (r: String)
    ensures
        r@ == base64_text(v@),
        base64_bytes(r@) == Some(v@),
{
    base64::Engine::encode(&base64::engine::general_purpose::STANDARD, v)
}

/// `base64::Engine::decode` of the standard engine: a function of the text alone,
/// which takes the empty text for no bytes.
#[verifier::external_body]
pub(crate) fn base64_decode(s: &str) -> (r: Option<Vec<u8>>)
    ensures
        match r {
            Some(v) => base64_bytes(s@) == Some(v@),
            None => base64_bytes(s@) is None,
        },
        s@.len() == 0 ==> r is Some && r->0@.len() == 0,
{
    base64::Engine::decode(&base64::engine::general_purpose::STANDARD, s).ok()
}

// ---------------------------------------------------------------------------
// url

/// The normal form of a URL, or what is wrong with it.
pub uninterp spec fn url_parsed(s: Seq<char>) -> Result<Seq<char>, Seq<char>>;

/// The text inside a result.
pub open spec fn text_result(r: Result<String, String>) -> Result<Seq<char>, Seq<char>> {
    match r {
        Ok(s) => Ok(s@),
        Err(e) => Err(e@),
    }
}

/// `url::Url::parse`, as the text of the URL or of the error: a function of the
/// text alone.
#[verifier::external_body]
pub(crate) fn url_parse(s: &str) -> (r: Result<String, String>)
    ensures
        text_result(r) == url_parsed(s@),
{
    match url::Url::parse(s) {
        Ok(u) => Ok(u.to_string()),
        Err(e) => Err(e.to_string()),
    }
}

/// The URL that `reference` names, seen from `base`, or what is wrong with one of
/// the two.
pub uninterp spec fn url_joined(base: Seq<char>, reference: Seq<char>) -> Result<
    Seq<char>,
    Seq<char>,
>;

/// `url::Url::join`, on a base that is parsed first: a function of the two texts.
#[verifier::external_body]
pub(crate) fn url_join(base: &str, reference: &str) -> (r: Result<String, String>)
    ensures
        text_result(r) == url_joined(base@, reference@),
{
    match url::Url::parse(base).and_then(|b| b.join(reference)) {
        Ok(u) => Ok(u.to_string()),
        Err(e) => Err(e.to_string()),
    }
}

/// The host and the port of a URL, the port that the scheme implies where it names
/// none; nothing where the text is no URL.
pub uninterp spec fn url_origin(s: Seq<char>) -> Option<(Option<Seq<char>>, Option<u16>)>;

/// The texts inside a host and port.
pub open spec fn origin_view(o: Option<(Option<String>, Option<u16>)>) -> Option<
    (Option<Seq<char>>, Option<u16>),
> {
    match o {
        Some((host, port)) => Some((opt_text(host), port)),
        None => None,
    }
}

/// `url::Url::host_str` and `url::Url::port_or_known_default` of the URL in a text:
/// a function of the text alone.
#[verifier::external_body]
pub(crate) fn url_host_port(s: &str) -> (r: Option<(Option<String>, Option<u16>)>)
    ensures
        origin_view(r) == url_origin(s@),
{
    match url::Url::parse(s) {
        Ok(u) => Some((u.host_str().map(str::to_string), u.port_or_known_default())),
        Err(_) => None,
    }
}

// ---------------------------------------------------------------------------
// semver

/// A text is a semantic version.
pub uninterp spec fn is_semver(s: Seq<char>) -> bool;

/// `semver::Version::parse`, and the version written out again: a function of the
/// text alone, which gives a version back as it was written.
#[verifier::external_body]
pub(crate) fn semver_parse(s: &str) -> (r: Option<String>)
    ensures
        match r {
            Some(v) => is_semver(s@) && v@ == s@,
            None => !is_semver(s@),
        },
{
    match semver::Version::parse(s) {
        Ok(v) => Some(v.to_string()),
        Err(_) => None,
    }
}

/// The version `a` is at least as high as the version `b`.
pub uninterp spec fn semver_at_least(a: Seq<char>, b: Seq<char>) -> bool;

/// The order of `semver::Version`, on two texts that are versions: a function of the
/// two texts, in which of two versions one is at least as high as the other, and the
/// higher of the two is at least as high as everything that the lower is.
#[verifier::external_body]
pub(crate) fn semver_ge(a: &str, b: &str) -> (r: bool)
    requires
        is_semver(a@),
        is_semver(b@),
    ensures
        r == semver_at_least(a@, b@),
        !r ==> semver_at_least(b@, a@),
        forall|c: Seq<char>|
            r && is_semver(c) && #[trigger] semver_at_least(b@, c) ==> semver_at_least(a@, c),
        forall|c: Seq<char>|
            !r && is_semver(c) && #[trigger] semver_at_least(a@, c) ==> semver_at_least(b@, c),
{
    match (semver::Version::parse(a), semver::Version::parse(b)) {
        (Ok(x), Ok(y)) => x >= y,
        _ => false,
    }
}

} // verus!
