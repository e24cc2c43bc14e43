//! The header sets of the upload protocol: the one that opens an upload, and
//! the one that goes with each chunk.
//!
//! The header map and its values are those of the HTTP stack. What a map
//! holds is spoken of through `header_fields`, what a value holds through
//! `header_value_bytes`; the few operations used here are stated over those
//! two and taken on trust.

use vstd::prelude::*;
use reqwest::header::{HeaderMap, HeaderValue, InvalidHeaderValue};
use crate::error::Error;

verus! {

/// The header map of the HTTP stack, opaque here.
#[verifier::external_type_specification]
#[verifier::external_body]
#[verifier::reject_recursive_types(T)]
pub struct ExHeaderMap<T>(reqwest::header::HeaderMap<T>);

/// One header value of the HTTP stack, opaque here.
#[verifier::external_type_specification]
#[verifier::external_body]
pub struct ExHeaderValue(reqwest::header::HeaderValue);

/// The error with which the HTTP stack refuses bytes as a header value.
#[verifier::external_type_specification]
#[verifier::external_body]
pub struct ExInvalidHeaderValue(reqwest::header::InvalidHeaderValue);

/// What a header map holds: for each field name present, in lower case, its
/// values in order.
pub uninterp spec fn header_fields(map: HeaderMap<HeaderValue>) -> Map<Seq<char>, Seq<Seq<u8>>>;

/// The bytes of a header value.
pub uninterp spec fn header_value_bytes(value: HeaderValue) -> Seq<u8>;

/// The most field names a map may hold for `insert_field` to be called on it.
pub const MAX_FIELDS: usize = 4096;

/// The protocol version announced in every request.
pub const TUS_VERSION: &'static str = "1.0.0";

/// A name that the trusted map operations are stated for: 1 to 64 characters,
/// each a lower-case letter, a digit or a hyphen.
pub open spec fn is_field_name(name: Seq<char>) -> bool {
    &&& 1 <= name.len() <= 64
    &&& forall|i: int|
        0 <= i < name.len() ==> {
            let c = #[trigger] name[i];
            ('a' <= c && c <= 'z') || ('0' <= c && c <= '9') || c == '-'
        }
}

/// A byte that may stand in a header value: anything from 32 up but 127, and
/// the tab.
pub open spec fn is_value_byte(b: u8) -> bool {
    (b >= 32 && b != 127) || b == 9
}

/// Text made of visible ASCII characters (32 to 126) and tabs.
pub open spec fn is_visible_text(text: Seq<char>) -> bool {
    forall|i: int|
        0 <= i < text.len() ==> {
            let c = #[trigger] text[i];
            (' ' <= c && c <= '~') || c == '\t'
        }
}

/// The bytes of a text of ASCII characters.
pub open spec fn ascii_bytes(text: Seq<char>) -> Seq<u8> {
    Seq::new(text.len(), |i: int| text[i] as u8)
}

/// The fields of a map that holds nothing.
pub open spec fn no_fields() -> Map<Seq<char>, Seq<Seq<u8>>> {
    Map::empty()
}

/// That `fields` has exactly `n` names.
pub open spec fn has_field_count(fields: Map<Seq<char>, Seq<Seq<u8>>>, n: nat) -> bool {
    fields.dom().finite() && fields.dom().len() == n
}

/// `HeaderMap::new`: a map that holds nothing.
#[verifier::external_body]
fn new_header_map() -> (headers: HeaderMap)
    ensures
        header_fields(headers) == no_fields(),
{
    HeaderMap::new()
}

/// `HeaderMap::clone`: the copy holds what the map holds.
#[verifier::external_body]
fn clone_header_map(map: &HeaderMap) -> (copy: HeaderMap)
    ensures
        header_fields(copy) == header_fields(*map),
{
    map.clone()
}

/// `HeaderMap::keys_len`: the number of field names in the map, of which
/// there are finitely many.
#[verifier::external_body]
fn field_count(map: &HeaderMap) -> (n: usize)
    ensures
        has_field_count(header_fields(*map), n as nat),
{
    map.keys_len()
}

/// `HeaderMap::insert` with a name given as text: afterwards the name has
/// `value` as its only value, and the other names are as before. The first
/// of the name's earlier values is returned, if it had any. The map grows
/// its table up to 32768 slots and panics beyond; with fewer than
/// `MAX_FIELDS` names it stays far below, and the names admitted here are
/// valid ones, so the call returns.
#[verifier::external_body]
fn insert_field(map: &mut HeaderMap, name: &'static str, value: HeaderValue) -> (previous: Option<
    HeaderValue,
>)
    requires
        is_field_name(name@),
        header_fields(*old(map)).dom().finite(),
        header_fields(*old(map)).dom().len() < MAX_FIELDS,
    ensures
        header_fields(*final(map)) == header_fields(*old(map)).insert(
            name@,
            seq![header_value_bytes(value)],
        ),
        previous is Some <==> header_fields(*old(map)).dom().contains(name@),
        previous matches Some(v) ==> header_value_bytes(v) == header_fields(*old(map))[name@][0],
{
    map.insert(name, value)
}

/// `HeaderMap::remove` with a name given as text: afterwards the name is
/// absent, and the other names are as before. The first of the name's values
/// is returned, if it had any.
#[verifier::external_body]
fn remove_field(map: &mut HeaderMap, name: &str) -> (previous: Option<HeaderValue>)
    requires
        is_field_name(name@),
    ensures
        header_fields(*final(map)) == header_fields(*old(map)).remove(name@),
        previous is Some <==> header_fields(*old(map)).dom().contains(name@),
        previous matches Some(v) ==> header_value_bytes(v) == header_fields(*old(map))[name@][0],
{
    map.remove(name)
}

/// `HeaderValue::from_static`: the value holds the text's bytes. It panics on
/// a character that is neither visible ASCII nor a tab, so such text is left
/// out.
#[verifier::external_body]
fn static_value(text: &'static str) -> (value: HeaderValue)
    requires
        is_visible_text(text@),
    ensures
        header_value_bytes(value) == ascii_bytes(text@),
{
    HeaderValue::from_static(text)
}

/// `HeaderValue::from_bytes`: the value holds the bytes given; it is refused
/// exactly when one of them may not stand in a header value.
#[verifier::external_body]
fn value_from_bytes(bytes: &[u8]) -> (r: Result<HeaderValue, InvalidHeaderValue>)
    ensures
        r is Ok <==> forall|i: int| 0 <= i < bytes@.len() ==> is_value_byte(#[trigger] bytes@[i]),
        r matches Ok(value) ==> header_value_bytes(value) == bytes@,
{
    HeaderValue::from_bytes(bytes)
}

/// The decimal digits of `n`, as ASCII bytes, without leading zeros.
pub open spec fn decimal(n: nat) -> Seq<u8>
    decreases n,
{
    if n < 10 {
        seq![(48 + n) as u8]
    } else {
        decimal(n / 10).push((48 + n % 10) as u8)
    }
}

/// Every byte of a decimal numeral is a digit, so it may stand in a header
/// value.
pub proof fn decimal_is_digits(n: nat)
    ensures
        decimal(n).len() >= 1,
        forall|i: int| 0 <= i < decimal(n).len() ==> 48 <= #[trigger] decimal(n)[i] <= 57,
    decreases n,
{
    if n >= 10 {
        decimal_is_digits(n / 10);
    }
}

/// Writes `n` in decimal.
pub fn decimal_digits(n: u64) -> (digits: Vec<u8>)
    ensures
        digits@ == decimal(n as nat),
    decreases n,
{
    if n < 10 {
        let d: u8 = 48 + (n as u8);
        let digits = vec![d];
        assert(digits@ =~= decimal(n as nat));
        digits
    } else {
        let mut digits = decimal_digits(n / 10);
        let d: u8 = 48 + ((n % 10) as u8);
        digits.push(d);
        digits
    }
}

/// The fields that open an upload of `size` bytes: the protocol version, the
/// total length, and the content type that marks the body as raw bytes.
pub open spec fn creation_fields(size: nat) -> Map<Seq<char>, Seq<Seq<u8>>> {
    no_fields().insert("tus-resumable"@, seq![ascii_bytes("1.0.0"@)]).insert(
        "upload-length"@,
        seq![decimal(size)],
    ).insert("content-type"@, seq![ascii_bytes("application/offset+octet-stream"@)])
}

/// The fields that go with one chunk written at `offset`: those of
/// `template` without the total length, and with the offset.
pub open spec fn chunk_fields(template: Map<Seq<char>, Seq<Seq<u8>>>, offset: nat) -> Map<
    Seq<char>,
    Seq<Seq<u8>>,
> {
    template.remove("upload-length"@).insert("upload-offset"@, seq![decimal(offset)])
}

/// A header value that holds `n` in decimal.
fn decimal_value(n: u64) -> (value: HeaderValue)
    ensures
        header_value_bytes(value) == decimal(n as nat),
{
    let digits = decimal_digits(n);
    proof {
        decimal_is_digits(n as nat);
    }
    match value_from_bytes(digits.as_slice()) {
        Ok(value) => value,
        Err(_) => vstd::pervasive::unreached(),
    }
}

/// Returns the smallest set of headers that opens an upload of `size` bytes.
/// It is also the template from which the headers of each chunk are made.
pub fn default_headers(size: u64) -> (headers: HeaderMap)
    ensures
        header_fields(headers) == creation_fields(size as nat),
{
    proof {
        reveal_strlit("tus-resumable");
        reveal_strlit("upload-length");
        reveal_strlit("content-type");
        reveal_strlit("1.0.0");
        reveal_strlit("application/offset+octet-stream");
    }
    let mut headers = new_header_map();
    insert_field(&mut headers, "tus-resumable", static_value("1.0.0"));
    insert_field(&mut headers, "upload-length", decimal_value(size));
    insert_field(
        &mut headers,
        "content-type",
        static_value("application/offset+octet-stream"),
    );
    headers
}

/// Builds the headers for one chunk written at `offset` from the template of
/// the upload: the total length is taken out, the offset put in. A template
/// of `MAX_FIELDS` names or more is refused.
pub fn chunk_headers(template: &HeaderMap, offset: usize) -> (r: Result<HeaderMap, Error>)
    ensures
        r is Ok <==> header_fields(*template).dom().len() < MAX_FIELDS,
        header_fields(*template).dom().finite(),
        r matches Ok(headers) ==> header_fields(headers) == chunk_fields(
            header_fields(*template),
            offset as nat,
        ),
        r matches Err(e) ==> e == (Error::HeaderConstruction { offset }),
{
    proof {
        reveal_strlit("upload-length");
        reveal_strlit("upload-offset");
    }
    if field_count(template) >= MAX_FIELDS {
        return Err(Error::HeaderConstruction { offset });
    }
    let mut headers = clone_header_map(template);
    remove_field(&mut headers, "upload-length");
    insert_field(&mut headers, "upload-offset", decimal_value(offset as u64));
    Ok(headers)
}

} // verus!
