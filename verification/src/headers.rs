//! The headers of a request.

use std::str::FromStr;

use reqwest::header::{HeaderMap, HeaderName, HeaderValue, InvalidHeaderName, InvalidHeaderValue};
use vstd::prelude::*;
use vstd::utf8::encode_utf8;

verus! {

/// `reqwest::header::HeaderMap`, a multimap from header names to values.
#[verifier::external_type_specification]
#[verifier::external_body]
#[verifier::reject_recursive_types(T)]
pub struct ExHeaderMap<T>(reqwest::header::HeaderMap<T>);

/// `reqwest::header::HeaderValue`, the value of a header.
#[verifier::external_type_specification]
#[verifier::external_body]
pub struct ExHeaderValue(reqwest::header::HeaderValue);

/// `reqwest::header::InvalidHeaderName`, the error of a name that is none.
#[verifier::external_type_specification]
#[verifier::external_body]
pub struct ExInvalidHeaderName(reqwest::header::InvalidHeaderName);

/// `reqwest::header::InvalidHeaderValue`, the error of a value that is none.
#[verifier::external_type_specification]
#[verifier::external_body]
pub struct ExInvalidHeaderValue(reqwest::header::InvalidHeaderValue);

/// How many different names a header map may hold so that one more header can
/// be inserted whatever its hash table looks like. Beyond, the insertion may
/// panic.
pub const MAX_NAMES_BEFORE_INSERT: usize = 6553;

/// The longest name of a header.
pub const MAX_NAME_LEN: usize = 65535;

/// The headers of a map, as iterating over it yields them: one pair of a name
/// in lower case and the bytes of a value for each value.
pub uninterp spec fn header_pairs(headers: HeaderMap<HeaderValue>) -> Seq<(Seq<char>, Seq<u8>)>;

/// The names that occur in `pairs`.
pub open spec fn names_of(pairs: Seq<(Seq<char>, Seq<u8>)>) -> Set<Seq<char>> {
    pairs.map_values(|pair: (Seq<char>, Seq<u8>)| pair.0).to_set()
}

/// Where the first header of the given name is; the length of `pairs` if there
/// is none.
pub open spec fn first_of(pairs: Seq<(Seq<char>, Seq<u8>)>, name: Seq<char>) -> int
    decreases pairs.len(),
{
    if pairs.len() == 0 || pairs[0].0 == name {
        0
    } else {
        1 + first_of(pairs.drop_first(), name)
    }
}

/// `pairs` with `value` as the only header of the given name: in the place of
/// the first one so far, or behind all others.
pub open spec fn with_header(
    pairs: Seq<(Seq<char>, Seq<u8>)>,
    name: Seq<char>,
    value: Seq<u8>,
) -> Seq<(Seq<char>, Seq<u8>)> {
    let at = first_of(pairs, name);
    pairs.take(at).push((name, value)) + without(pairs.skip(at), name)
}

/// `pairs` less the headers of the given name.
pub open spec fn without(pairs: Seq<(Seq<char>, Seq<u8>)>, name: Seq<char>) -> Seq<
    (Seq<char>, Seq<u8>),
> {
    pairs.filter(|pair: (Seq<char>, Seq<u8>)| pair.0 != name)
}

/// The values of the given name in `pairs`, in their order.
pub open spec fn values_of(pairs: Seq<(Seq<char>, Seq<u8>)>, name: Seq<char>) -> Seq<Seq<u8>>
    decreases pairs.len(),
{
    if pairs.len() == 0 {
        Seq::empty()
    } else if pairs.last().0 == name {
        values_of(pairs.drop_last(), name).push(pairs.last().1)
    } else {
        values_of(pairs.drop_last(), name)
    }
}

/// The characters of a header name.
pub open spec fn is_token_char(c: char) -> bool {
    ||| 'a' <= c <= 'z'
    ||| 'A' <= c <= 'Z'
    ||| '0' <= c <= '9'
    ||| c == '!' || c == '#' || c == '$' || c == '%' || c == '&' || c == '\''
    ||| c == '*' || c == '+' || c == '-' || c == '.' || c == '^' || c == '_'
    ||| c == '`' || c == '|' || c == '~'
}

/// Whether `text` is the name of a header, in any case.
pub open spec fn is_header_name(text: Seq<char>) -> bool {
    &&& 0 < text.len() <= MAX_NAME_LEN
    &&& forall|i: int| 0 <= i < text.len() ==> is_token_char(#[trigger] text[i])
}

/// `text` with its ASCII letters in lower case.
pub open spec fn ascii_lower(text: Seq<char>) -> Seq<char> {
    text.map_values(
        |c: char|
            if 'A' <= c <= 'Z' {
                (c as u32 + 32) as char
            } else {
                c
            },
    )
}

/// Whether `text` is the value of a header: no control characters but the tab.
pub open spec fn is_header_text(text: Seq<char>) -> bool {
    forall|i: int|
        0 <= i < text.len() ==> (#[trigger] text[i] == '\t' || (text[i] >= ' ' && text[i]
            != '\u{7f}'))
}

/// The pairs of a list of names and values.
pub open spec fn pair_views(pairs: Seq<(String, Vec<u8>)>) -> Seq<(Seq<char>, Seq<u8>)> {
    pairs.map_values(|pair: (String, Vec<u8>)| (pair.0@, pair.1@))
}

/// `HeaderMap::iter`: the headers of the map, each as its name and the bytes of
/// its value, in the order of the iteration.
#[verifier::external_body]
pub(crate) fn list_headers(headers: &HeaderMap<HeaderValue>) -> (r: Vec<(String, Vec<u8>)>)
    ensures
        pair_views(r@) == header_pairs(*headers),
{
    headers.iter().map(|(k, v)| (k.as_str().to_string(), v.as_bytes().to_vec())).collect()
}

/// `HeaderName::from_str`: takes text of 1 to 65535 token characters, and no
/// other.
#[verifier::external_body]
pub(crate) fn check_header_name(text: &str) -> (r: Result<(), InvalidHeaderName>)
    ensures
        r is Ok <==> is_header_name(text@),
{
    HeaderName::from_str(text).map(|_| ())
}

/// `HeaderValue::from_str`: takes text without control characters other than
/// the tab, and no other.
#[verifier::external_body]
pub(crate) fn check_header_value(text: &str) -> (r: Result<(), InvalidHeaderValue>)
    ensures
        r is Ok <==> is_header_text(text@),
{
    HeaderValue::from_str(text).map(|_| ())
}

/// `HeaderMap::insert`: makes the text, in UTF-8, the only value of the name,
/// in lower case. A name that the map has keeps its place in the iteration; a
/// new one comes last.
#[verifier::external_body]
pub(crate) fn insert_header(headers: &mut HeaderMap<HeaderValue>, name: &str, value: &str)
    requires
        is_header_name(name@),
        is_header_text(value@),
        names_of(header_pairs(*old(headers))).len() <= MAX_NAMES_BEFORE_INSERT,
    ensures
        header_pairs(*final(headers)) == with_header(
            header_pairs(*old(headers)),
            ascii_lower(name@),
            encode_utf8(value@),
        ),
{
    headers.insert(HeaderName::from_str(name).unwrap(), HeaderValue::from_str(value).unwrap());
}

/// The first header of a name is in the list or at its end.
proof fn lemma_first_of(pairs: Seq<(Seq<char>, Seq<u8>)>, name: Seq<char>)
    ensures
        0 <= first_of(pairs, name) <= pairs.len(),
        values_of(pairs.take(first_of(pairs, name)), name) == Seq::<Seq<u8>>::empty(),
    decreases pairs.len(),
{
    if pairs.len() > 0 && pairs[0].0 != name {
        let at = first_of(pairs, name);
        let first = seq![pairs[0]];
        lemma_first_of(pairs.drop_first(), name);
        assert(pairs.take(at) =~= first + pairs.drop_first().take(at - 1));
        lemma_values_of_concat(first, pairs.drop_first().take(at - 1), name);
        assert(first.drop_last() =~= Seq::empty());
        assert(values_of(first.drop_last(), name) == Seq::<Seq<u8>>::empty());
    }
}

/// The values of a name in two lists, one behind the other.
proof fn lemma_values_of_concat(
    front: Seq<(Seq<char>, Seq<u8>)>,
    back: Seq<(Seq<char>, Seq<u8>)>,
    name: Seq<char>,
)
    ensures
        values_of(front + back, name) == values_of(front, name) + values_of(back, name),
    decreases back.len(),
{
    if back.len() == 0 {
        assert(front + back =~= front);
    } else {
        lemma_values_of_concat(front, back.drop_last(), name);
        assert((front + back).drop_last() =~= front + back.drop_last());
    }
}

/// Leaving out a name leaves out its values and no others.
proof fn lemma_values_of_without(
    pairs: Seq<(Seq<char>, Seq<u8>)>,
    name: Seq<char>,
    other: Seq<char>,
)
    ensures
        values_of(without(pairs, name), other) == if other == name {
            Seq::empty()
        } else {
            values_of(pairs, other)
        },
    decreases pairs.len(),
{
    reveal(Seq::filter);
    if pairs.len() > 0 {
        let rest = without(pairs.drop_last(), name);
        lemma_values_of_without(pairs.drop_last(), name, other);
        if pairs.last().0 != name {
            assert(rest.push(pairs.last()).drop_last() =~= rest);
        }
    }
}

/// Setting a header makes its value the only one of its name, and leaves the
/// values of every other name as they are.
pub proof fn law_set_header_is_the_only_one(
    pairs: Seq<(Seq<char>, Seq<u8>)>,
    name: Seq<char>,
    value: Seq<u8>,
    other: Seq<char>,
)
    ensures
        values_of(with_header(pairs, name, value), other) == if other == name {
            seq![value]
        } else {
            values_of(pairs, other)
        },
{
    let at = first_of(pairs, name);
    let front = pairs.take(at).push((name, value));
    let back = pairs.skip(at);
    lemma_first_of(pairs, name);
    lemma_values_of_concat(front, without(back, name), other);
    lemma_values_of_without(back, name, other);
    assert(front.drop_last() =~= pairs.take(at));
    assert(pairs =~= pairs.take(at) + back);
    lemma_values_of_concat(pairs.take(at), back, other);
}

/// A name occurs if and only if it has values.
proof fn lemma_names_have_values(pairs: Seq<(Seq<char>, Seq<u8>)>, name: Seq<char>)
    ensures
        names_of(pairs).contains(name) <==> values_of(pairs, name).len() > 0,
    decreases pairs.len(),
{
    let names = pairs.map_values(|pair: (Seq<char>, Seq<u8>)| pair.0);
    if pairs.len() > 0 {
        let front = pairs.drop_last();
        let front_names = front.map_values(|pair: (Seq<char>, Seq<u8>)| pair.0);
        lemma_names_have_values(front, name);
        assert(names =~= front_names.push(pairs.last().0));
        if front_names.contains(name) {
            let k = choose|k: int| 0 <= k < front_names.len() && front_names[k] == name;
            assert(names[k] == name);
        }
        if pairs.last().0 == name {
            assert(names[pairs.len() - 1] == name);
        }
        if names.contains(name) && pairs.last().0 != name {
            let k = choose|k: int| 0 <= k < names.len() && names[k] == name;
            assert(front_names[k] == name);
        }
    }
}

/// Setting a header adds its name to the names, if it is not among them.
pub proof fn lemma_with_header_names(
    pairs: Seq<(Seq<char>, Seq<u8>)>,
    name: Seq<char>,
    value: Seq<u8>,
)
    ensures
        names_of(with_header(pairs, name, value)) == names_of(pairs).insert(name),
        names_of(with_header(pairs, name, value)).len() <= names_of(pairs).len() + 1,
{
    let after = with_header(pairs, name, value);
    assert forall|n: Seq<char>|
        names_of(after).contains(n) <==> #[trigger] names_of(pairs).insert(name).contains(n) by {
        law_set_header_is_the_only_one(pairs, name, value, n);
        lemma_names_have_values(pairs, n);
        lemma_names_have_values(after, n);
    }
    assert(names_of(after) =~= names_of(pairs).insert(name));
    pairs.map_values(|pair: (Seq<char>, Seq<u8>)| pair.0).lemma_cardinality_of_set();
}

/// A header behind the others adds its value to those of its name, and to those
/// of no other.
pub proof fn law_values_are_those_of_the_name(
    pairs: Seq<(Seq<char>, Seq<u8>)>,
    name: Seq<char>,
    value: Seq<u8>,
    other: Seq<char>,
)
    ensures
        values_of(Seq::empty(), other) == Seq::<Seq<u8>>::empty(),
        values_of(pairs.push((name, value)), other) == if other == name {
            values_of(pairs, other).push(value)
        } else {
            values_of(pairs, other)
        },
{
    assert(pairs.push((name, value)).drop_last() =~= pairs);
}

/// Setting a header whose name is not there puts it behind the others; setting
/// one again puts it in the same place.
pub proof fn law_set_header_comes_last_or_stays(
    pairs: Seq<(Seq<char>, Seq<u8>)>,
    name: Seq<char>,
    value: Seq<u8>,
    again: Seq<u8>,
)
    requires
        forall|i: int| 0 <= i < pairs.len() ==> (#[trigger] pairs[i]).0 != name,
    ensures
        with_header(pairs, name, value) == pairs.push((name, value)),
        with_header(pairs.push((name, value)), name, again) == pairs.push((name, again)),
{
    lemma_absent(pairs, name);
    let more = pairs.push((name, value));
    lemma_first_behind(pairs, name, value);
    reveal(Seq::filter);
    assert(pairs.skip(pairs.len() as int) =~= Seq::empty());
    assert(pairs.take(pairs.len() as int) =~= pairs);
    assert(with_header(pairs, name, value) =~= pairs.push((name, value)));
    assert(more.skip(pairs.len() as int) =~= seq![(name, value)]);
    assert(more.take(pairs.len() as int) =~= pairs);
    assert(seq![(name, value)].drop_last() =~= Seq::empty());
    assert(without(seq![(name, value)].drop_last(), name) =~= Seq::empty());
    assert(without(seq![(name, value)], name) =~= Seq::empty());
    assert(with_header(more, name, again) =~= pairs.push((name, again)));
}

proof fn lemma_absent(pairs: Seq<(Seq<char>, Seq<u8>)>, name: Seq<char>)
    requires
        forall|i: int| 0 <= i < pairs.len() ==> (#[trigger] pairs[i]).0 != name,
    ensures
        first_of(pairs, name) == pairs.len(),
    decreases pairs.len(),
{
    if pairs.len() > 0 {
        let rest = pairs.drop_first();
        assert(pairs[0].0 != name);
        assert forall|i: int| 0 <= i < rest.len() implies (#[trigger] rest[i]).0 != name by {
            assert(rest[i] == pairs[i + 1]);
        }
        lemma_absent(rest, name);
    }
}

proof fn lemma_first_behind(pairs: Seq<(Seq<char>, Seq<u8>)>, name: Seq<char>, value: Seq<u8>)
    requires
        forall|i: int| 0 <= i < pairs.len() ==> (#[trigger] pairs[i]).0 != name,
    ensures
        first_of(pairs.push((name, value)), name) == pairs.len(),
    decreases pairs.len(),
{
    if pairs.len() > 0 {
        let rest = pairs.drop_first();
        assert(pairs[0].0 != name);
        assert forall|i: int| 0 <= i < rest.len() implies (#[trigger] rest[i]).0 != name by {
            assert(rest[i] == pairs[i + 1]);
        }
        lemma_first_behind(rest, name, value);
        assert(pairs.push((name, value)).drop_first() =~= rest.push((name, value)));
    }
}

} // verus!
