//! The text of HTTP header values.
use vstd::prelude::*;

verus! {

/// Whether a byte may stand in a header value that is read as text: visible ASCII, the
/// space and the tab.
pub open spec fn is_header_text_byte(b: u8) -> bool {
    32 <= b < 127 || b == 9
}

/// Whether a header value can be read as text.
pub open spec fn is_header_text(raw: Seq<u8>) -> bool {
    forall|i: int| 0 <= i < raw.len() ==> is_header_text_byte(#[trigger] raw[i])
}

/// The text of a header value whose bytes are all ASCII.
pub open spec fn ascii_text(raw: Seq<u8>) -> Seq<char> {
    raw.map_values(|b: u8| b as char)
}

/// The text of an optional header: empty where the header is absent or cannot be read
/// as text.
pub open spec fn header_or_empty(raw: Option<Seq<u8>>) -> Seq<char> {
    match raw {
        Some(b) => if is_header_text(b) {
            ascii_text(b)
        } else {
            seq![]
        },
        None => seq![],
    }
}

/// The bytes of an optional header value.
pub open spec fn header_bytes(raw: Option<Vec<u8>>) -> Option<Seq<u8>> {
    match raw {
        Some(b) => Some(b@),
        None => None,
    }
}

/// `http::HeaderValue::to_str` on the header value of the bytes `raw`, made by
/// `http::HeaderValue::from_bytes`: the text of the bytes where each of them is visible
/// ASCII, the space or the tab, and nothing otherwise.
#[verifier::external_body]
fn header_text(raw: &[u8]) -> (text: Option<String>)
    ensures
        match text {
            Some(t) => is_header_text(raw@) && t@ == ascii_text(raw@),
            None => !is_header_text(raw@),
        },
{
    let value = http::HeaderValue::from_bytes(raw).ok()?;
    value.to_str().ok().map(|t| t.to_string())
}

/// The text of an optional header, empty where it is absent or no text.
pub fn text_or_empty(raw: &Option<Vec<u8>>) -> (text: String)
    ensures
        text@ == header_or_empty(header_bytes(*raw)),
{
    match raw {
        Some(b) => match header_text(b.as_slice()) {
            Some(t) => t,
            None => String::new(),
        },
        None => String::new(),
    }
}

/// A header value whose bytes are all between the space and the tilde, or tabs, is the text of
/// just these characters.
pub proof fn law_header_text(raw: Seq<u8>)
    requires
        forall|i: int|
            0 <= i < raw.len() ==> 0x20 <= (#[trigger] raw[i]) <= 0x7e || raw[i] == 0x09,
    ensures
        header_or_empty(Some(raw)).len() == raw.len(),
        forall|i: int|
            0 <= i < raw.len() ==> (#[trigger] header_or_empty(Some(raw))[i]) as int == raw[i],
{
    assert forall|i: int| 0 <= i < raw.len() implies is_header_text_byte(#[trigger] raw[i]) by {}
    assert(is_header_text(raw));
}

/// A header value with any other byte counts as empty, and so does no value.
pub proof fn law_no_header_text(raw: Seq<u8>, i: int)
    requires
        0 <= i < raw.len(),
        !(0x20 <= raw[i] <= 0x7e || raw[i] == 0x09),
    ensures
        header_or_empty(Some(raw)).len() == 0,
        header_or_empty(None).len() == 0,
{
    assert(!is_header_text_byte(raw[i]));
}

/// The bytes of a header value are its bytes, and an absent header has none.
pub proof fn law_header_bytes(raw: Vec<u8>)
    ensures
        header_bytes(Some(raw)) == Some(raw@),
        header_bytes(None) is None,
{
}

} // verus!
