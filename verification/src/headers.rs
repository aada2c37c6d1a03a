//! Response headers: the header types of the `http` crate and what they
//! hold, and the rule that picks a response's content type.

use http::header::{HeaderMap, HeaderName, HeaderValue, MaxSizeReached};
use vstd::prelude::*;
use vstd::utf8::encode_utf8;

verus! {

#[verifier::external_type_specification]
#[verifier::external_body]
pub struct ExHeaderValue(http::header::HeaderValue);

#[verifier::external_type_specification]
#[verifier::external_body]
pub struct ExHeaderName(http::header::HeaderName);

#[verifier::external_type_specification]
#[verifier::external_body]
pub struct ExMaxSizeReached(http::header::MaxSizeReached);

#[verifier::external_type_specification]
#[verifier::external_body]
#[verifier::reject_recursive_types(T)]
pub struct ExHeaderMap<T>(http::header::HeaderMap<T>);

/// The bytes of a header value.
pub uninterp spec fn header_value_bytes(value: HeaderValue) -> Seq<u8>;

/// The bytes of a header name.
pub uninterp spec fn header_name_bytes(name: HeaderName) -> Seq<u8>;

/// What a header map holds: for each name that is present, the bytes of its
/// values in the order in which they were added.
pub uninterp spec fn header_entries(map: HeaderMap<HeaderValue>) -> Map<Seq<u8>, Seq<Seq<u8>>>;

/// Whether `map` takes one more value under `name`: it does unless it has
/// reached the largest size that the `http` crate lets a header map have.
pub uninterp spec fn header_map_takes(map: HeaderMap<HeaderValue>, name: HeaderName) -> bool;

/// Whether `text` can be a header value: printable ASCII and tabs only.
pub open spec fn is_header_value_text(text: Seq<char>) -> bool {
    forall|i: int|
        0 <= i < text.len() ==> (32 <= (#[trigger] text[i]) as u32 && (text[i] as u32) < 127)
            || text[i] as u32 == 9
}

/// The entries of a map that holds nothing.
pub open spec fn no_headers() -> Map<Seq<u8>, Seq<Seq<u8>>> {
    Map::empty()
}

/// The entries of `map` after one more value for `name`: behind the values
/// that the name already has, or as its first.
pub open spec fn with_appended(
    map: Map<Seq<u8>, Seq<Seq<u8>>>,
    name: Seq<u8>,
    value: Seq<u8>,
) -> Map<Seq<u8>, Seq<Seq<u8>>> {
    if map.contains_key(name) {
        map.insert(name, map[name].push(value))
    } else {
        map.insert(name, seq![value])
    }
}

/// Hands out the `http` crate's constant `CONTENT_TYPE`, the header name
/// `content-type`.
#[verifier::external_body]
pub(crate) fn content_type_name() -> (name: HeaderName)
    ensures
        header_name_bytes(name) == encode_utf8("content-type"@),
{
    http::header::CONTENT_TYPE
}

/// Calls `HeaderValue::from_static`, which keeps the text as the value's
/// bytes. It panics on a text with a byte that is neither printable ASCII nor
/// a tab, so such texts are left out.
#[verifier::external_body]
pub(crate) fn header_value_from_static(text: &'static str) -> (value: HeaderValue)
    requires
        is_header_value_text(text@),
    ensures
        header_value_bytes(value) == encode_utf8(text@),
{
    HeaderValue::from_static(text)
}

/// The clone of a `HeaderValue` has the same bytes.
pub assume_specification[ <HeaderValue as Clone>::clone ](value: &HeaderValue) -> (twin: HeaderValue)
    ensures
        header_value_bytes(twin) == header_value_bytes(*value),
;

/// `HeaderMap::new` gives a map without entries, which takes a value under
/// any name.
pub assume_specification[ HeaderMap::<HeaderValue>::new ]() -> (fresh: HeaderMap<HeaderValue>)
    ensures
        header_entries(fresh) == no_headers(),
        forall|name: HeaderName| #[trigger] header_map_takes(fresh, name),
;

/// Calls `HeaderMap::from_iter` on one pair: the map then holds that name
/// with that one value, and nothing else.
#[verifier::external_body]
pub(crate) fn single_header(name: HeaderName, value: HeaderValue) -> (map: HeaderMap<HeaderValue>)
    ensures
        header_entries(map) == with_appended(
            no_headers(),
            header_name_bytes(name),
            header_value_bytes(value),
        ),
{
    HeaderMap::from_iter([(name, value)])
}

/// Calls `HeaderMap::try_append`. It fails only where the map has reached
/// its largest size, and the entries are then as they were. On success the
/// value stands behind the values that the name already had, and the result
/// tells whether it had any.
#[verifier::external_body]
pub(crate) fn header_map_try_append(
    map: &mut HeaderMap<HeaderValue>,
    name: HeaderName,
    value: HeaderValue,
) -> (present: Result<bool, MaxSizeReached>)
    ensures
        present is Ok <==> header_map_takes(*old(map), name),
        match present {
            Ok(had) => had == header_entries(*old(map)).contains_key(header_name_bytes(name))
                && header_entries(*final(map)) == with_appended(
                header_entries(*old(map)),
                header_name_bytes(name),
                header_value_bytes(value),
            ),
            Err(_) => header_entries(*final(map)) == header_entries(*old(map)),
        },
{
    map.try_append(name, value)
}

/// The content type of a response: the one that the caller set, or else the
/// format's own.
pub open spec fn content_type_of(chosen: Option<HeaderValue>, default: Seq<char>) -> Seq<u8> {
    match chosen {
        Some(value) => header_value_bytes(value),
        None => encode_utf8(default),
    }
}

/// The entries of a header map that holds `content-type` with the one value
/// `content_type`, and nothing else.
pub open spec fn content_type_headers(content_type: Seq<u8>) -> Map<Seq<u8>, Seq<Seq<u8>>> {
    with_appended(no_headers(), encode_utf8("content-type"@), content_type)
}

/// The headers of a response in a format whose own content type is
/// `default`: the content type alone, which is the caller's if one was set.
pub fn content_type_response_headers(
    chosen: &Option<HeaderValue>,
    default: &'static str,
) -> (headers: Option<HeaderMap<HeaderValue>>)
    requires
        is_header_value_text(default@),
    ensures
        headers is Some,
        header_entries(headers->0) == content_type_headers(content_type_of(*chosen, default@)),
{
    let value = match chosen {
        Some(value) => value.clone(),
        None => header_value_from_static(default),
    };
    Some(single_header(content_type_name(), value))
}

} // verus!
