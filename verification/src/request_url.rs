//! The URLs of requests: what they say of the host, and how long they get once
//! their query is encoded anew.

use vstd::prelude::*;
use vstd::string::StrSliceExecFns;
use vstd::utf8::{encode_utf8, valid_utf8};

use crate::text::utf8_text;

verus! {

/// How many bytes a URL can have.
pub const MAX_URL_LEN: usize = 65534;

/// Whether `url`, where it is one, has a scheme and a host: it does not begin
/// like a path, and it is not a host alone.
pub open spec fn is_absolute(url: Seq<char>) -> bool {
    url.len() > 0 && url[0] != '/' && url.contains('/')
}

/// Whether `url`, where it is one, is a path alone.
pub open spec fn is_path(url: Seq<char>) -> bool {
    url == "*"@ || (url.len() > 0 && url[0] == '/')
}

/// Whether a request to `url` says which host it is for, by the URL or by a
/// `host` header beside a path.
pub open spec fn says_host(url: Seq<char>, has_host_header: bool) -> bool {
    is_absolute(url) || (is_path(url) && has_host_header)
}

/// The value of a hexadecimal digit, if `b` is one.
pub open spec fn hex_digit(b: u8) -> Option<u8> {
    if 48 <= b <= 57 {
        Some((b - 48) as u8)
    } else if 65 <= b <= 70 {
        Some((b - 55) as u8)
    } else if 97 <= b <= 102 {
        Some((b - 87) as u8)
    } else {
        None
    }
}

/// The byte that `bytes` begin with in percent encoding, if they do.
pub open spec fn escaped_byte(bytes: Seq<u8>) -> Option<u8> {
    if bytes.len() >= 3 && bytes[0] == 37 {
        match (hex_digit(bytes[1]), hex_digit(bytes[2])) {
            (Some(high), Some(low)) => Some((high * 16 + low) as u8),
            _ => None,
        }
    } else {
        None
    }
}

/// `bytes` with what is percent-encoded decoded.
pub open spec fn percent_decoded(bytes: Seq<u8>) -> Seq<u8>
    decreases bytes.len(),
{
    if bytes.len() == 0 {
        Seq::empty()
    } else {
        match escaped_byte(bytes) {
            Some(b) => seq![b] + percent_decoded(bytes.skip(3)),
            None => seq![bytes[0]] + percent_decoded(bytes.skip(1)),
        }
    }
}

/// How many bytes one of a decoded query takes at most once it is encoded.
/// Letters, digits and `-._~` stay as they are, all others take three. Where the
/// query is not text, a byte beyond ASCII may give way to a character of three
/// bytes, each of which takes three.
pub open spec fn encoded_bytes(b: u8, is_text: bool) -> nat {
    if 97 <= b <= 122 || 65 <= b <= 90 || 48 <= b <= 57 || b == 45 || b == 46 || b == 95 || b
        == 126 {
        1
    } else if b < 128 || is_text {
        3
    } else {
        9
    }
}

/// How many bytes a decoded query takes at most once it is encoded, a last `=`
/// included.
pub open spec fn encoded_len(query: Seq<u8>, is_text: bool) -> nat
    decreases query.len(),
{
    if query.len() == 0 {
        1
    } else {
        encoded_len(query.drop_last(), is_text) + encoded_bytes(query.last(), is_text)
    }
}

/// Where the first `?` of `bytes` is; their length if there is none.
pub open spec fn query_mark(bytes: Seq<u8>) -> int
    decreases bytes.len(),
{
    if bytes.len() == 0 || bytes[0] == 63 {
        0
    } else {
        1 + query_mark(bytes.skip(1))
    }
}

/// Whether `url` has no query, or one that surely can be decoded and encoded
/// anew.
pub open spec fn query_fits(url: Seq<char>) -> bool {
    let bytes = encode_utf8(url);
    let at = query_mark(bytes);
    at < bytes.len() ==> {
        let query = percent_decoded(bytes.skip(at + 1));
        at + 1 + encoded_len(query, valid_utf8(query)) <= MAX_URL_LEN
    }
}

/// Whether a request to `url` says which host it is for.
pub(crate) fn has_host(url: &str, has_host_header: bool) -> (r: bool)
    ensures
        r == says_host(url@, has_host_header),
{
    proof {
        reveal_strlit("*");
    }
    if url.is_empty() {
        assert(url@ != "*"@);
        return false;
    }
    let first: char = url.get_char(0);
    let count: usize = url.unicode_len();
    assert(url@ == "*"@ <==> first == '*' && count == 1) by {
        if first == '*' && count == 1 {
            assert(url@ =~= "*"@);
        }
    }
    if first == '/' || (first == '*' && count == 1) {
        if first == '*' {
            assert(!url@.contains('/'));
        }
        return has_host_header;
    }
    let mut has_slash: bool = false;
    for c in it: url.chars()
        invariant
            it.seq() == url@,
            has_slash <==> exists|k: int| 0 <= k < it.index() && url@[k] == '/',
    {
        if c == '/' {
            has_slash = true;
        }
    }
    has_slash
}

fn hex_value(b: u8) -> (r: Option<u8>)
    ensures
        r == hex_digit(b),
{
    if 48 <= b && b <= 57 {
        Some(b - 48)
    } else if 65 <= b && b <= 70 {
        Some(b - 55)
    } else if 97 <= b && b <= 102 {
        Some(b - 87)
    } else {
        None
    }
}

/// The bytes from `start` on, with what is percent-encoded decoded.
fn decode_from(bytes: &[u8], start: usize) -> (r: Vec<u8>)
    requires
        start <= bytes@.len(),
    ensures
        r@ == percent_decoded(bytes@.skip(start as int)),
{
    let mut out: Vec<u8> = Vec::new();
    let mut i: usize = start;
    assert(out@ + percent_decoded(bytes@.skip(i as int)) =~= percent_decoded(
        bytes@.skip(start as int),
    ));
    while i < bytes.len()
        invariant
            start <= i <= bytes@.len(),
            out@ + percent_decoded(bytes@.skip(i as int)) == percent_decoded(
                bytes@.skip(start as int),
            ),
        decreases bytes@.len() - i,
    {
        let ghost rest = bytes@.skip(i as int);
        let ghost before = out@;
        assert(rest.skip(1) =~= bytes@.skip(i + 1));
        let mut escaped: Option<u8> = None;
        if bytes.len() - i >= 3 && bytes[i] == 37 {
            assert(rest.skip(3) =~= bytes@.skip(i + 3));
            match (hex_value(bytes[i + 1]), hex_value(bytes[i + 2])) {
                (Some(high), Some(low)) => {
                    escaped = Some(high * 16 + low);
                },
                _ => {},
            }
        }
        assert(escaped == escaped_byte(rest));
        match escaped {
            Some(b) => {
                out.push(b);
                i = i + 3;
            },
            None => {
                out.push(bytes[i]);
                i = i + 1;
            },
        }
        assert(out@ + percent_decoded(bytes@.skip(i as int)) =~= before + percent_decoded(rest));
    }
    assert(out@ =~= percent_decoded(bytes@.skip(start as int)));
    out
}

/// How many bytes a decoded query takes at most once it is encoded.
fn len_encoded(query: &Vec<u8>, is_text: bool) -> (r: u128)
    ensures
        r == encoded_len(query@, is_text),
        r <= 1 + 9 * query@.len(),
{
    let mut len: u128 = 1;
    let mut i: usize = 0;
    assert(encoded_len(query@.take(0), is_text) == 1);
    while i < query.len()
        invariant
            i <= query@.len(),
            len == encoded_len(query@.take(i as int), is_text),
            len <= 1 + 9 * i,
        decreases query@.len() - i,
    {
        let b: u8 = query[i];
        assert(query@.take(i + 1).drop_last() =~= query@.take(i as int));
        len = len + if (97 <= b && b <= 122) || (65 <= b && b <= 90) || (48 <= b && b <= 57) || b
            == 45 || b == 46 || b == 95 || b == 126 {
            1
        } else if b < 128 || is_text {
            3
        } else {
            9
        };
        i = i + 1;
    }
    assert(query@.take(query@.len() as int) =~= query@);
    len
}

/// Whether `url` has no query, or one that surely can be decoded and encoded
/// anew.
pub(crate) fn has_fitting_query(url: &str) -> (r: bool)
    ensures
        r == query_fits(url@),
{
    let bytes: &[u8] = url.as_bytes();
    let mut at: usize = 0;
    assert(bytes@.skip(0) =~= bytes@);
    while at < bytes.len() && bytes[at] != 63
        invariant
            at <= bytes@.len(),
            query_mark(bytes@) == at + query_mark(bytes@.skip(at as int)),
        decreases bytes@.len() - at,
    {
        assert(bytes@.skip(at as int).skip(1) =~= bytes@.skip(at + 1));
        at = at + 1;
    }
    if at == bytes.len() {
        return true;
    }
    let query: Vec<u8> = decode_from(bytes, at + 1);
    let is_text: bool = utf8_text(query.as_slice()).is_some();
    at as u128 + 1 + len_encoded(&query, is_text) <= MAX_URL_LEN as u128
}

/// Decoding makes nothing longer.
proof fn lemma_decoded_len(bytes: Seq<u8>)
    ensures
        percent_decoded(bytes).len() <= bytes.len(),
    decreases bytes.len(),
{
    if bytes.len() > 0 {
        match escaped_byte(bytes) {
            Some(_) => lemma_decoded_len(bytes.skip(3)),
            None => lemma_decoded_len(bytes.skip(1)),
        }
    }
}

/// Encoding takes at most nine bytes for one.
proof fn lemma_encoded_len(query: Seq<u8>, is_text: bool)
    ensures
        query.len() < encoded_len(query, is_text) <= 1 + 9 * query.len(),
    decreases query.len(),
{
    if query.len() > 0 {
        lemma_encoded_len(query.drop_last(), is_text);
    }
}

/// The first `?` of a text is in it or there is none.
proof fn lemma_query_mark(bytes: Seq<u8>)
    ensures
        0 <= query_mark(bytes) <= bytes.len(),
        query_mark(bytes) < bytes.len() ==> bytes[query_mark(bytes)] == 63,
        forall|i: int| 0 <= i < query_mark(bytes) ==> #[trigger] bytes[i] != 63,
    decreases bytes.len(),
{
    if bytes.len() > 0 && bytes[0] != 63 {
        lemma_query_mark(bytes.skip(1));
        assert forall|i: int| 0 <= i < query_mark(bytes) implies #[trigger] bytes[i] != 63 by {
            if i > 0 {
                assert(bytes[i] == bytes.skip(1)[i - 1]);
            }
        }
    }
}

/// A URL without a query, and every URL of at most 7281 bytes, can be encoded
/// anew.
pub proof fn law_short_queries_fit(url: Seq<char>)
    ensures
        !encode_utf8(url).contains(63) ==> query_fits(url),
        encode_utf8(url).len() <= 7281 ==> query_fits(url),
{
    let bytes = encode_utf8(url);
    let at = query_mark(bytes);
    lemma_query_mark(bytes);
    if at < bytes.len() {
        assert(bytes.contains(63));
        let query = percent_decoded(bytes.skip(at + 1));
        lemma_decoded_len(bytes.skip(at + 1));
        lemma_encoded_len(query, valid_utf8(query));
    }
}

/// A URL says its host by a scheme and a host, or beside a `host` header by a
/// path alone; a host alone is not enough.
pub proof fn law_host_is_said_by_url_or_header(url: Seq<char>, has_host_header: bool)
    requires
        url.len() > 0,
    ensures
        url[0] != '/' && url.contains('/') ==> says_host(url, has_host_header),
        url[0] == '/' ==> (says_host(url, has_host_header) <==> has_host_header),
        url == seq!['*'] ==> (says_host(url, has_host_header) <==> has_host_header),
        url != seq!['*'] && !url.contains('/') ==> !says_host(url, has_host_header),
{
    reveal_strlit("*");
    assert("*"@ =~= seq!['*']);
    if url[0] == '/' {
        assert(url.contains('/'));
    }
    if url == seq!['*'] {
        assert(!url.contains('/'));
    }
}

} // verus!
