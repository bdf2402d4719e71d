use vstd::prelude::*;
use vstd::utf8::{decode_utf8, encode_utf8, valid_utf8};

verus! {

/// The JSON string literal, quotes and escapes included, that serde_json
/// writes for a string; `None` where it reports an error.
pub uninterp spec fn json_quoted(s: Seq<char>) -> Option<Seq<char>>;

/// The string member `key` of the JSON object that `text` holds, as
/// serde_json reads it; `None` where `text` is no JSON object or the member
/// is missing or no string.
pub uninterp spec fn json_member_of(text: Seq<char>, key: Seq<char>) -> Option<Seq<char>>;

/// Relies on `serde_json::to_string` for a string.
#[verifier::external_body]
fn json_string(s: &str) -> (r: Option<String>)
    ensures
        r matches Some(q) ==> json_quoted(s@) == Some(q@),
        r is None ==> json_quoted(s@) is None,
{
    serde_json::to_string(s).ok()
}

/// Relies on `serde_json::from_str` into a `serde_json::Value`, then
/// `Value::get` and `Value::as_str`.
#[verifier::external_body]
fn json_member(text: &str, key: &str) -> (r: Option<String>)
    ensures
        r matches Some(v) ==> json_member_of(text@, key@) == Some(v@),
        r is None ==> json_member_of(text@, key@) is None,
{
    let v: serde_json::Value = serde_json::from_str(text).ok()?;
    v.get(key)?.as_str().map(|s| s.to_string())
}

/// Relies on `std::str::from_utf8`: it accepts exactly the valid UTF-8
/// sequences, and reads them as the characters they encode.
#[verifier::external_body]
fn utf8_text(b: &[u8]) -> (r: Option<String>)
    ensures
        r is Some <==> valid_utf8(b@),
        r matches Some(s) ==> s@ == decode_utf8(b@),
{
    std::str::from_utf8(b).ok().map(|s| s.to_string())
}

/// Longest JSON text kept in a comment, in bytes.
pub const MAX_COMMENT_SIZE: usize = 1000;

/// The character-code header of an EXIF user comment: `ASCII` and three NULs.
pub open spec fn comment_header() -> Seq<u8> {
    seq![65u8, 83u8, 67u8, 73u8, 73u8, 0u8, 0u8, 0u8]
}

pub open spec fn location_key() -> Seq<char> {
    "location_source"@
}

pub open spec fn bearing_key() -> Seq<char> {
    "bearing_source"@
}

/// `{"location_source":<lq>,"bearing_source":<bq>}` in UTF-8, given the two
/// quoted strings.
pub open spec fn provenance_json(lq: Seq<char>, bq: Seq<char>) -> Seq<u8> {
    encode_utf8("{\"location_source\":"@) + encode_utf8(lq) + encode_utf8(",\"bearing_source\":"@)
        + encode_utf8(bq) + encode_utf8("}"@)
}

/// The user comment that records where the location and the bearing came
/// from: the header, then the JSON text cut to at most
/// `MAX_COMMENT_SIZE` bytes. `None` where a string cannot be quoted.
pub open spec fn provenance_comment(location_source: Seq<char>, bearing_source: Seq<char>) -> Option<
    Seq<u8>,
> {
    match (json_quoted(location_source), json_quoted(bearing_source)) {
        (Some(lq), Some(bq)) => {
            let j = provenance_json(lq, bq);
            Some(
                comment_header() + if j.len() > MAX_COMMENT_SIZE {
                    j.take(MAX_COMMENT_SIZE as int)
                } else {
                    j
                },
            )
        },
        _ => None,
    }
}

/// The two sources read back from a user comment: the text after the
/// eight-byte header, read as JSON. `None` where there is no such text or it
/// lacks either member.
pub open spec fn provenance_of_comment(c: Seq<u8>) -> Option<(Seq<char>, Seq<char>)> {
    if c.len() > 8 && valid_utf8(c.skip(8)) {
        let text = decode_utf8(c.skip(8));
        match (json_member_of(text, location_key()), json_member_of(text, bearing_key())) {
            (Some(a), Some(b)) => Some((a, b)),
            _ => None,
        }
    } else {
        None
    }
}

/// Builds the provenance user comment.
pub fn make_provenance_comment(location_source: &str, bearing_source: &str) -> (r: Option<Vec<u8>>)
    ensures
        r matches Some(c) ==> provenance_comment(location_source@, bearing_source@) == Some(c@),
        r is None ==> provenance_comment(location_source@, bearing_source@) is None,
{
    let lq = match json_string(location_source) {
        Some(q) => q,
        None => return None,
    };
    let bq = match json_string(bearing_source) {
        Some(q) => q,
        None => return None,
    };
    let mut json: Vec<u8> = Vec::new();
    json.extend_from_slice("{\"location_source\":".as_bytes());
    json.extend_from_slice(lq.as_str().as_bytes());
    json.extend_from_slice(",\"bearing_source\":".as_bytes());
    json.extend_from_slice(bq.as_str().as_bytes());
    json.extend_from_slice("}".as_bytes());
    assert(json@ =~= provenance_json(lq@, bq@));
    let mut out: Vec<u8> = Vec::new();
    out.push(65u8);
    out.push(83u8);
    out.push(67u8);
    out.push(73u8);
    out.push(73u8);
    out.push(0u8);
    out.push(0u8);
    out.push(0u8);
    let ghost head = out@;
    let n: usize = if json.len() > MAX_COMMENT_SIZE {
        MAX_COMMENT_SIZE
    } else {
        json.len()
    };
    let mut i: usize = 0;
    while i < n
        invariant
            n <= json.len(),
            i <= n,
            out@ == head + json@.take(i as int),
        decreases n - i,
    {
        out.push(json[i]);
        i = i + 1;
        assert(out@ =~= head + json@.take(i as int));
    }
    assert(head =~= comment_header());
    assert(json@.len() <= MAX_COMMENT_SIZE ==> json@.take(n as int) =~= json@);
    Some(out)
}

/// Reads the two sources back from a user comment.
pub fn read_provenance_comment(c: &[u8]) -> (r: Option<(String, String)>)
    ensures
        r matches Some(p) ==> provenance_of_comment(c@) == Some((p.0@, p.1@)),
        r is None ==> provenance_of_comment(c@) is None,
{
    if c.len() <= 8 {
        return None;
    }
    let mut rest: Vec<u8> = Vec::new();
    let mut i: usize = 8;
    while i < c.len()
        invariant
            8 <= i <= c.len(),
            rest@ == c@.subrange(8, i as int),
        decreases c.len() - i,
    {
        rest.push(c[i]);
        i = i + 1;
        assert(rest@ =~= c@.subrange(8, i as int));
    }
    assert(rest@ =~= c@.skip(8));
    let text = match utf8_text(rest.as_slice()) {
        Some(t) => t,
        None => return None,
    };
    let loc = json_member(text.as_str(), "location_source");
    let bear = json_member(text.as_str(), "bearing_source");
    match (loc, bear) {
        (Some(a), Some(b)) => Some((a, b)),
        _ => None,
    }
}

} // verus!
