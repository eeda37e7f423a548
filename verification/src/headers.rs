//! Header fields of requests and responses.
use vstd::prelude::*;
use vstd::utf8::*;

use crate::encoding::{ascii_is_utf8, ascii_text, utf8_text};
use crate::text::{ascii_lower, chars_of, lower, lowered};

verus! {

#[verifier::external_type_specification]
#[verifier::external_body]
#[verifier::reject_recursive_types(T)]
pub struct ExHeaderMap<T>(http::HeaderMap<T>);

#[verifier::external_type_specification]
#[verifier::external_body]
pub struct ExHeaderValue(http::HeaderValue);

/// The fields that a header map holds: for each name, in lower case, its values in
/// the order in which they were added.
pub uninterp spec fn header_fields(headers: http::HeaderMap) -> Map<Seq<char>, Seq<Seq<u8>>>;

/// The number of names up to which a header map can always take one more. Its table has
/// at most 32768 places, and where names collide it asks for twice as many as soon as a
/// fifth of them is taken.
pub const HEADER_ROOM: usize = 6_553;

/// Whether a header map can take one more name.
pub open spec fn roomy(fields: Map<Seq<char>, Seq<Seq<u8>>>) -> bool {
    fields.dom().finite() && fields.dom().len() <= HEADER_ROOM
}

/// Whether a character may stand in a field's name.
pub open spec fn is_token(c: char) -> bool {
    ||| 'a' <= c <= 'z'
    ||| 'A' <= c <= 'Z'
    ||| '0' <= c <= '9'
    ||| c == '!'
    ||| '#' <= c <= '\''
    ||| c == '*'
    ||| c == '+'
    ||| c == '-'
    ||| c == '.'
    ||| '^' <= c <= '`'
    ||| c == '|'
    ||| c == '~'
}

/// Whether a text is a field's name.
pub open spec fn is_field_name(s: Seq<char>) -> bool {
    &&& 0 < s.len() <= 65535
    &&& forall|i: int| 0 <= i < s.len() ==> is_token(#[trigger] s[i])
}

/// Whether a character may stand in a field's name as a header map holds it: in lower case,
/// and also a quotation mark.
pub open spec fn is_low_token(c: char) -> bool {
    (is_token(c) && ascii_lower(c) == c) || c == '"'
}

/// Whether a text is a field's name as a header map can hold it.
pub open spec fn is_low_name(s: Seq<char>) -> bool {
    &&& 0 < s.len() <= 65535
    &&& forall|i: int| 0 <= i < s.len() ==> is_low_token(#[trigger] s[i])
}

/// Whether a text can be a field's value: no control character but the tab.
pub open spec fn is_field_value(s: Seq<char>) -> bool {
    forall|i: int|
        0 <= i < s.len() ==> (' ' <= #[trigger] s[i] && s[i] != '\u{7f}') || s[i] == '\t'
}

/// Whether bytes can be a field's value: no control character but the tab.
pub open spec fn is_field_bytes(value: Seq<u8>) -> bool {
    forall|i: int|
        0 <= i < value.len() ==> (32 <= #[trigger] value[i] && value[i] != 127) || value[i] == 9
}

/// Whether a name and bytes can be a field as a header map lists it.
pub open spec fn is_field(field: (Seq<char>, Seq<u8>)) -> bool {
    is_low_name(field.0) && is_field_bytes(field.1)
}

/// Fields with one more value of a name, behind those that it has.
pub open spec fn with_value(
    fields: Map<Seq<char>, Seq<Seq<u8>>>,
    name: Seq<char>,
    value: Seq<u8>,
) -> Map<Seq<char>, Seq<Seq<u8>>> {
    fields.insert(name, values_for(fields, name).push(value))
}

/// Whether a field's value is text: printable ASCII and tabs.
pub open spec fn is_plain(value: Seq<u8>) -> bool {
    forall|i: int| 0 <= i < value.len() ==> 32 <= #[trigger] value[i] < 127 || value[i] == 9
}

/// The values that a list of fields holds for a name.
pub open spec fn values_of(list: Seq<(Seq<char>, Seq<u8>)>, name: Seq<char>) -> Seq<Seq<u8>>
    decreases list.len(),
{
    if list.len() == 0 {
        Seq::empty()
    } else if list.last().0 == name {
        values_of(list.drop_last(), name).push(list.last().1)
    } else {
        values_of(list.drop_last(), name)
    }
}

/// Fields, taken by their views.
pub open spec fn field_views(list: Seq<(String, Vec<u8>)>) -> Seq<(Seq<char>, Seq<u8>)> {
    list.map_values(|f: (String, Vec<u8>)| (f.0@, f.1@))
}

/// Whether a list holds the fields of a header map: for each name its values in their order,
/// and each field is as a header map lists it.
pub open spec fn lists(
    list: Seq<(Seq<char>, Seq<u8>)>,
    fields: Map<Seq<char>, Seq<Seq<u8>>>,
) -> bool {
    &&& forall|n: Seq<char>| #[trigger] values_of(list, n) == values_for(fields, n)
    &&& forall|n: Seq<char>| #[trigger]
        fields.contains_key(n) ==> values_of(list, n).len() > 0
    &&& forall|i: int| 0 <= i < list.len() ==> is_field(#[trigger] list[i])
}

/// The values that a header map holds for a name, none where it has no such field.
pub open spec fn values_for(fields: Map<Seq<char>, Seq<Seq<u8>>>, name: Seq<char>) -> Seq<
    Seq<u8>,
> {
    if fields.contains_key(name) {
        fields[name]
    } else {
        Seq::empty()
    }
}

/// `HeaderMap::new`: no fields.
#[verifier::external_body]
pub(crate) fn no_headers() -> (r: http::HeaderMap)
    ensures
        header_fields(r).dom() == Set::<Seq<char>>::empty(),
{
    http::HeaderMap::new()
}

/// `HeaderMap::try_insert`, with the name made by `HeaderName::from_bytes` and the value by
/// `HeaderValue::from_str`: the one value takes the place of all values of that name, or the
/// map cannot grow and stays as it is. Where it has room it can.
#[verifier::external_body]
pub(crate) fn put_header(headers: &mut http::HeaderMap, name: &str, value: &str) -> (r: bool)
    requires
        is_field_name(name@),
        is_field_value(value@),
    ensures
        r ==> header_fields(*final(headers)) == header_fields(*old(headers)).insert(
            lowered(name@),
            seq![encode_utf8(value@)],
        ),
        !r ==> header_fields(*final(headers)) == header_fields(*old(headers)),
        roomy(header_fields(*old(headers))) ==> r,
{
    let name = http::HeaderName::from_bytes(name.as_bytes()).unwrap();
    let value = http::HeaderValue::from_str(value).unwrap();
    headers.try_insert(name, value).is_ok()
}

/// `HeaderMap::try_append`, with the name made by `HeaderName::from_lowercase` and the value
/// by `HeaderValue::from_bytes`: the value is added behind those of that name, or the map
/// cannot grow and stays as it is. Where it has room it can.
#[verifier::external_body]
pub(crate) fn add_header(headers: &mut http::HeaderMap, name: &Vec<u8>, value: &Vec<u8>) -> (r:
    bool)
    requires
        is_low_name(ascii_text(name@)),
        is_field_bytes(value@),
    ensures
        r ==> header_fields(*final(headers)) == with_value(
            header_fields(*old(headers)),
            ascii_text(name@),
            value@,
        ),
        !r ==> header_fields(*final(headers)) == header_fields(*old(headers)),
        roomy(header_fields(*old(headers))) ==> r,
{
    let name = http::HeaderName::from_lowercase(name).unwrap();
    let value = http::HeaderValue::from_bytes(value).unwrap();
    headers.try_append(name, value).is_ok()
}

/// The headers with one value for a name, and whether the map could take it; else as they were.
pub(crate) fn set_field(headers: http::HeaderMap, name: &str, value: &str) -> (r: (
    http::HeaderMap,
    bool,
))
    requires
        is_field_name(name@),
        is_field_value(value@),
    ensures
        r.1 ==> header_fields(r.0) == header_fields(headers).insert(
            lowered(name@),
            seq![encode_utf8(value@)],
        ),
        !r.1 ==> header_fields(r.0) == header_fields(headers),
        roomy(header_fields(headers)) ==> r.1,
        exists|m: &mut http::HeaderMap, taken: bool| #[trigger]
            call_ensures(put_header, (m, name, value), taken) && taken == r.1 && *m == headers
                && *final(m) == r.0,
{
    let mut headers = headers;
    let taken = put_header(&mut headers, name, value);
    (headers, taken)
}

/// The headers with one more value of a name behind those that it has, and whether the map
/// could take it; else as they were.
pub(crate) fn add_field(headers: http::HeaderMap, name: &Vec<u8>, value: &Vec<u8>) -> (r: (
    http::HeaderMap,
    bool,
))
    requires
        is_low_name(ascii_text(name@)),
        is_field_bytes(value@),
    ensures
        r.1 ==> header_fields(r.0) == with_value(
            header_fields(headers),
            ascii_text(name@),
            value@,
        ),
        !r.1 ==> header_fields(r.0) == header_fields(headers),
        roomy(header_fields(headers)) ==> r.1,
        exists|m: &mut http::HeaderMap, taken: bool| #[trigger]
            call_ensures(add_header, (m, name, value), taken) && taken == r.1 && *m == headers
                && *final(m) == r.0,
{
    let mut headers = headers;
    let taken = add_header(&mut headers, name, value);
    (headers, taken)
}

/// Whether a header map with these fields could not take a value for a name when it was asked
/// to.
pub closed spec fn is_refused(
    fields: Map<Seq<char>, Seq<Seq<u8>>>,
    name: Seq<char>,
    value: Seq<char>,
) -> bool {
    exists|h: http::HeaderMap, n: &str, v: &str, out: http::HeaderMap| #[trigger]
        call_ensures(set_field, (h, n, v), (out, false)) && header_fields(h) == fields && n@ == name
            && v@ == value
}

/// Whether a header map with these fields could not take one more value of a name when it was
/// asked to.
pub closed spec fn is_value_refused(
    fields: Map<Seq<char>, Seq<Seq<u8>>>,
    name: Seq<char>,
    value: Seq<u8>,
) -> bool {
    exists|h: http::HeaderMap, n: &Vec<u8>, v: &Vec<u8>, out: http::HeaderMap| #[trigger]
        call_ensures(add_field, (h, n, v), (out, false)) && header_fields(h) == fields
            && ascii_text(n@) == name && v@ == value
}

/// Brings in that a header map could not take a value.
pub(crate) proof fn refused(h: http::HeaderMap, n: &str, v: &str, out: http::HeaderMap)
    requires
        call_ensures(set_field, (h, n, v), (out, false)),
    ensures
        is_refused(header_fields(h), n@, v@),
{
}

/// Brings in that a header map could not take one more value.
pub(crate) proof fn value_refused(
    h: http::HeaderMap,
    n: &Vec<u8>,
    v: &Vec<u8>,
    out: http::HeaderMap,
)
    requires
        call_ensures(add_field, (h, n, v), (out, false)),
    ensures
        is_value_refused(header_fields(h), ascii_text(n@), v@),
{
}

/// `HeaderMap::get`: the first value of a name, in whatever case it is written.
#[verifier::external_body]
pub(crate) fn first_header(headers: &http::HeaderMap, name: &str) -> (r: Option<Vec<u8>>)
    requires
        is_field_name(name@),
    ensures
        r is Some == header_fields(*headers).contains_key(lowered(name@)),
        r is Some ==> 0 < header_fields(*headers)[lowered(name@)].len(),
        r is Some ==> r->0@ == header_fields(*headers)[lowered(name@)][0],
{
    headers.get(name).map(|value| value.as_bytes().to_vec())
}

/// `HeaderMap::get_all`: the values of a name, in the order in which they were added.
#[verifier::external_body]
pub(crate) fn all_headers(headers: &http::HeaderMap, name: &str) -> (r: Vec<Vec<u8>>)
    requires
        is_field_name(name@),
    ensures
        bytes_of(r@) == values_for(header_fields(*headers), lowered(name@)),
{
    headers.get_all(name).iter().map(|value| value.as_bytes().to_vec()).collect()
}

/// `HeaderMap::iter`: every field, in no order but that of the values of each name. Each
/// name is one that a header map can hold and has a value, and each value can be one.
#[verifier::external_body]
pub(crate) fn list_headers(headers: &http::HeaderMap) -> (r: Vec<(String, Vec<u8>)>)
    ensures
        lists(field_views(r@), header_fields(*headers)),
{
    headers.iter().map(|(name, value)| (name.to_string(), value.as_bytes().to_vec())).collect()
}

/// `HeaderMap::clone`: the same fields.
#[verifier::external_body]
pub(crate) fn copy_headers(headers: &http::HeaderMap) -> (r: http::HeaderMap)
    ensures
        header_fields(r) == header_fields(*headers),
{
    headers.clone()
}

/// Lists of bytes, taken by their views.
pub open spec fn bytes_of(list: Seq<Vec<u8>>) -> Seq<Seq<u8>> {
    list.map_values(|v: Vec<u8>| v@)
}

/// Whether a character may stand in a field's name.
fn token(c: char) -> (r: bool)
    ensures
        r == is_token(c),
{
    ('a' <= c && c <= 'z') || ('A' <= c && c <= 'Z') || ('0' <= c && c <= '9') || c == '!' || ('#'
        <= c && c <= '\'') || c == '*' || c == '+' || c == '-' || c == '.' || ('^' <= c && c
        <= '`') || c == '|' || c == '~'
}

/// Whether a text is a field's name.
pub fn field_name(s: &str) -> (r: bool)
    ensures
        r == is_field_name(s@),
{
    let cs = chars_of(s);
    if cs.len() == 0 || cs.len() > 65535 {
        return false;
    }
    let mut i: usize = 0;
    while i < cs.len()
        invariant
            i <= cs.len(),
            cs@ == s@,
            forall|j: int| 0 <= j < i ==> is_token(#[trigger] s@[j]),
        decreases cs.len() - i,
    {
        if !token(cs[i]) {
            assert(!is_token(s@[i as int]));
            return false;
        }
        i += 1;
    }
    true
}

/// The bytes of a field's name in lower case, where it is one, or one that a header map can
/// hold.
pub fn low_name(s: &str) -> (r: Option<Vec<u8>>)
    ensures
        r is Some == (is_field_name(s@) || is_low_name(s@)),
        r is Some ==> ascii_text(r->0@) == lowered(s@),
        r is Some ==> is_low_name(lowered(s@)),
{
    let cs = chars_of(s);
    if cs.len() == 0 || cs.len() > 65535 {
        return None;
    }
    let mut is_name = true;
    let mut is_low = true;
    let mut bytes: Vec<u8> = Vec::new();
    let mut i: usize = 0;
    while i < cs.len()
        invariant
            i <= cs.len(),
            cs@ == s@,
            bytes.len() == i,
            is_name == (forall|j: int| 0 <= j < i ==> is_token(#[trigger] s@[j])),
            is_low == (forall|j: int| 0 <= j < i ==> is_low_token(#[trigger] s@[j])),
            is_name || is_low,
            forall|j: int|
                0 <= j < i ==> #[trigger] bytes@[j] as char == ascii_lower(s@[j]) && is_low_token(
                    ascii_lower(s@[j]),
                ),
        decreases cs.len() - i,
    {
        let c = cs[i];
        assert(c == s@[i as int]);
        let l = lower(c);
        is_name = is_name && token(c);
        is_low = is_low && ((token(c) && l == c) || c == '"');
        if !is_name && !is_low {
            return None;
        }
        bytes.push(l as u8);
        i += 1;
    }
    assert(ascii_text(bytes@) =~= lowered(s@));
    Some(bytes)
}

/// Whether a text can be a field's value.
pub fn field_value(s: &str) -> (r: bool)
    ensures
        r == is_field_value(s@),
{
    let cs = chars_of(s);
    let mut i: usize = 0;
    while i < cs.len()
        invariant
            i <= cs.len(),
            cs@ == s@,
            forall|j: int|
                0 <= j < i ==> (' ' <= #[trigger] s@[j] && s@[j] != '\u{7f}') || s@[j] == '\t',
        decreases cs.len() - i,
    {
        let c = cs[i];
        if !((' ' <= c && c != '\u{7f}') || c == '\t') {
            assert(s@[i as int] == c);
            return false;
        }
        i += 1;
    }
    true
}

/// Whether bytes can be a field's value.
pub fn field_bytes(value: &Vec<u8>) -> (r: bool)
    ensures
        r == is_field_bytes(value@),
{
    let mut i: usize = 0;
    while i < value.len()
        invariant
            i <= value.len(),
            forall|j: int|
                0 <= j < i ==> (32 <= #[trigger] value@[j] && value@[j] != 127) || value@[j] == 9,
        decreases value.len() - i,
    {
        let b: u8 = value[i];
        if !((32 <= b && b != 127) || b == 9) {
            assert(value@[i as int] == b);
            return false;
        }
        i += 1;
    }
    true
}

/// The text of a field's value, where it is printable ASCII and tabs.
pub fn plain_text(value: &Vec<u8>) -> (r: Option<String>)
    ensures
        r is Some == is_plain(value@),
        r is Some ==> r->0@ == ascii_text(value@),
{
    let mut bytes: Vec<u8> = Vec::new();
    let mut i: usize = 0;
    while i < value.len()
        invariant
            i <= value.len(),
            bytes@ == value@.take(i as int),
            forall|j: int| 0 <= j < i ==> 32 <= #[trigger] value@[j] < 127 || value@[j] == 9,
        decreases value.len() - i,
    {
        let b: u8 = value[i];
        if !((32 <= b && b < 127) || b == 9) {
            assert(value@[i as int] == b);
            return None;
        }
        bytes.push(b);
        i += 1;
    }
    assert(bytes@ == value@);
    proof {
        ascii_is_utf8(value@);
    }
    utf8_text(bytes)
}

/// The text of a name's first value: nothing where there is no such field, an error
/// where the value is not text.
pub fn header_text(headers: &http::HeaderMap, name: &str) -> (r: Option<Option<String>>)
    requires
        is_field_name(name@),
    ensures
        r is Some == header_fields(*headers).contains_key(lowered(name@)),
        r is Some ==> {
            let value = header_fields(*headers)[lowered(name@)][0];
            &&& r->0 is Some == is_plain(value)
            &&& r->0 is Some ==> r->0->0@ == ascii_text(value)
        },
{
    match first_header(headers, name) {
        None => None,
        Some(value) => Some(plain_text(&value)),
    }
}

/// `user-agent` is a field's name in lower case.
pub proof fn user_agent_is_a_name()
    ensures
        is_field_name("user-agent"@),
        lowered("user-agent"@) == "user-agent"@,
{
    reveal_strlit("user-agent");
    assert(lowered("user-agent"@) =~= "user-agent"@);
}

/// Whether a character is a letter or digit of ASCII, or one of the signs that may stand in a
/// field's name.
pub open spec fn may_name(c: char) -> bool {
    ||| 'a' <= c <= 'z'
    ||| 'A' <= c <= 'Z'
    ||| '0' <= c <= '9'
    ||| "!#$%&'*+-.^_`|~"@.contains(c)
}

/// The characters of a field's name are the letters and digits of ASCII and fifteen signs.
pub proof fn tokens_are_letters_digits_and_signs(c: char)
    ensures
        is_token(c) == may_name(c),
        is_low_token(c) == ((may_name(c) && !('A' <= c <= 'Z')) || c == '"'),
{
    reveal_strlit("!#$%&'*+-.^_`|~");
    let signs = "!#$%&'*+-.^_`|~"@;
    assert(signs[0] == '!' && signs[1] == '#' && signs[2] == '$' && signs[3] == '%' && signs[4]
        == '&' && signs[5] == '\'' && signs[6] == '*' && signs[7] == '+' && signs[8] == '-'
        && signs[9] == '.' && signs[10] == '^' && signs[11] == '_' && signs[12] == '`'
        && signs[13] == '|' && signs[14] == '~');
    if signs.contains(c) {
        let k = signs.index_of(c);
        assert(signs[k] == c);
    }
}

/// A text is a field's name where it has a character and no more than 65535, and each is one
/// that may stand there.
pub proof fn names_are_made_of_tokens(s: &str, r: bool)
    requires
        call_ensures(field_name, (s,), r),
    ensures
        r == (1 <= s@.len() <= 65535 && forall|i: int|
            0 <= i < s@.len() ==> may_name(#[trigger] s@[i])),
{
    let named = 1 <= s@.len() <= 65535 && forall|i: int|
        0 <= i < s@.len() ==> may_name(#[trigger] s@[i]);
    assert forall|c: char| #[trigger] may_name(c) == is_token(c) by {
        tokens_are_letters_digits_and_signs(c);
    }
    if r {
        assert forall|i: int| 0 <= i < s@.len() implies may_name(#[trigger] s@[i]) by {
            assert(is_token(s@[i]));
        }
    }
    if named {
        assert forall|i: int| 0 <= i < s@.len() implies is_token(#[trigger] s@[i]) by {
            assert(may_name(s@[i]));
        }
    }
}

/// A text can be a field's value where it holds no control character but the tab; and so can
/// bytes.
pub proof fn values_hold_no_control_characters(
    s: &str,
    value: Vec<u8>,
    of_text: bool,
    of_bytes: bool,
)
    requires
        call_ensures(field_value, (s,), of_text),
        call_ensures(field_bytes, (&value,), of_bytes),
    ensures
        of_text == (forall|i: int|
            0 <= i < s@.len() ==> !(#[trigger] s@[i] <= '\u{1f}' && s@[i] != '\t')
                && s@[i] != '\u{7f}'),
        of_bytes == (forall|i: int|
            0 <= i < value@.len() ==> !(#[trigger] value@[i] <= 31 && value@[i] != 9)
                && value@[i] != 127),
{
    if of_text {
        assert forall|i: int| 0 <= i < s@.len() implies !(#[trigger] s@[i] <= '\u{1f}' && s@[i]
            != '\t') && s@[i] != '\u{7f}' by {
            assert((' ' <= s@[i] && s@[i] != '\u{7f}') || s@[i] == '\t');
        }
    } else {
        let i = choose|i: int|
            0 <= i < s@.len() && !((' ' <= #[trigger] s@[i] && s@[i] != '\u{7f}') || s@[i]
                == '\t');
        assert((s@[i] <= '\u{1f}' && s@[i] != '\t') || s@[i] == '\u{7f}');
    }
    if !of_bytes {
        let i = choose|i: int|
            0 <= i < value@.len() && !((32 <= #[trigger] value@[i] && value@[i] != 127)
                || value@[i] == 9);
        assert((value@[i] <= 31 && value@[i] != 9) || value@[i] == 127);
    }
}

/// The text of a value is what its bytes write, where all are printable ASCII or tabs; else it
/// has none.
pub proof fn plain_values_are_text(value: Vec<u8>, r: Option<String>)
    requires
        call_ensures(plain_text, (&value,), r),
    ensures
        r is Some == (forall|i: int|
            0 <= i < value@.len() ==> 32 <= #[trigger] value@[i] <= 126 || value@[i] == 9),
        r matches Some(text) ==> text@.len() == value@.len() && forall|i: int|
            0 <= i < value@.len() ==> #[trigger] text@[i] == value@[i] as char,
{
}

/// The text of a name is that of its first value, whatever case the name is asked for in.
pub proof fn first_values_count(
    headers: http::HeaderMap,
    name: &str,
    r: Option<Option<String>>,
)
    requires
        call_ensures(header_text, (&headers, name), r),
    ensures
        r is Some == header_fields(headers).contains_key(lowered(name@)),
        r is Some ==> {
            let value = header_fields(headers)[lowered(name@)][0];
            let plain = forall|i: int|
                0 <= i < value.len() ==> 32 <= #[trigger] value[i] <= 126 || value[i] == 9;
            &&& r->0 is Some == plain
            &&& r->0 matches Some(text) ==> text@.len() == value.len() && forall|i: int|
                0 <= i < value.len() ==> #[trigger] text@[i] == value[i] as char
        },
{
}

/// A name that is read back is a field's name in whatever case, or one that a header map holds,
/// which may have quotation marks but no large letters; it comes back in lower case.
pub proof fn kept_names_are_lower_case(s: &str, r: Option<Vec<u8>>)
    requires
        call_ensures(low_name, (s,), r),
    ensures
        r is Some == (1 <= s@.len() <= 65535 && ((forall|i: int|
            0 <= i < s@.len() ==> may_name(#[trigger] s@[i])) || (forall|i: int|
            0 <= i < s@.len() ==> (may_name(#[trigger] s@[i]) && !('A' <= s@[i] <= 'Z')) || s@[i]
                == '"'))),
        r matches Some(bytes) ==> bytes@.len() == s@.len() && forall|i: int|
            0 <= i < s@.len() ==> if 'A' <= s@[i] <= 'Z' {
                #[trigger] bytes@[i] as u32 == s@[i] as u32 + 32
            } else {
                bytes@[i] as char == s@[i]
            },
{
    assert forall|c: char| #[trigger] may_name(c) == is_token(c) by {
        tokens_are_letters_digits_and_signs(c);
    }
    assert forall|i: int| 0 <= i < s@.len() implies #[trigger] is_low_token(s@[i]) == ((may_name(
        s@[i],
    ) && !('A' <= s@[i] <= 'Z')) || s@[i] == '"') by {
        tokens_are_letters_digits_and_signs(s@[i]);
    }
    let named = forall|i: int| 0 <= i < s@.len() ==> may_name(#[trigger] s@[i]);
    let low = forall|i: int|
        0 <= i < s@.len() ==> (may_name(#[trigger] s@[i]) && !('A' <= s@[i] <= 'Z')) || s@[i]
            == '"';
    let tokens = forall|i: int| 0 <= i < s@.len() ==> is_token(#[trigger] s@[i]);
    let low_tokens = forall|i: int| 0 <= i < s@.len() ==> is_low_token(#[trigger] s@[i]);
    assert(named == tokens) by {
        if named {
            assert forall|i: int| 0 <= i < s@.len() implies is_token(#[trigger] s@[i]) by {
                assert(may_name(s@[i]));
            }
        }
        if tokens {
            assert forall|i: int| 0 <= i < s@.len() implies may_name(#[trigger] s@[i]) by {
                assert(is_token(s@[i]));
            }
        }
    }
    assert(low == low_tokens) by {
        if low {
            assert forall|i: int| 0 <= i < s@.len() implies is_low_token(#[trigger] s@[i]) by {
                assert((may_name(s@[i]) && !('A' <= s@[i] <= 'Z')) || s@[i] == '"');
            }
        }
        if low_tokens {
            assert forall|i: int| 0 <= i < s@.len() implies (may_name(#[trigger] s@[i]) && !('A'
                <= s@[i] <= 'Z')) || s@[i] == '"' by {
                assert(is_low_token(s@[i]));
            }
        }
    }
    if let Some(bytes) = r {
        assert(ascii_text(bytes@).len() == lowered(s@).len());
        assert forall|i: int| 0 <= i < s@.len() implies if 'A' <= s@[i] <= 'Z' {
            #[trigger] bytes@[i] as u32 == s@[i] as u32 + 32
        } else {
            bytes@[i] as char == s@[i]
        } by {
            assert(ascii_text(bytes@)[i] == lowered(s@)[i]);
        }
    }
}

/// A header map that could not take a value was asked to, and has more names than it always has
/// room beside.
proof fn refusals_come_from_the_map(
    fields: Map<Seq<char>, Seq<Seq<u8>>>,
    name: Seq<char>,
    value: Seq<char>,
)
    requires
        is_refused(fields, name, value),
    ensures
        fields.dom().finite() ==> fields.dom().len() > 6553,
        exists|h: http::HeaderMap, n: &str, v: &str, out: http::HeaderMap| #[trigger]
            call_ensures(set_field, (h, n, v), (out, false)) && header_fields(h) == fields && n@
                == name && v@ == value,
{
}

/// The same for one more value of a name.
proof fn refusals_of_values_come_from_the_map(
    fields: Map<Seq<char>, Seq<Seq<u8>>>,
    name: Seq<char>,
    value: Seq<u8>,
)
    requires
        is_value_refused(fields, name, value),
    ensures
        fields.dom().finite() ==> fields.dom().len() > 6553,
        exists|h: http::HeaderMap, n: &Vec<u8>, v: &Vec<u8>, out: http::HeaderMap| #[trigger]
            call_ensures(add_field, (h, n, v), (out, false)) && header_fields(h) == fields
                && ascii_text(n@) == name && v@ == value,
{
}

/// Setting a field asks the map to insert it, and adding one asks it to append it.
proof fn fields_are_set_by_the_map(
    headers: http::HeaderMap,
    name: &str,
    value: &str,
    low_name: &Vec<u8>,
    bytes: &Vec<u8>,
    set: (http::HeaderMap, bool),
    added: (http::HeaderMap, bool),
)
    requires
        call_ensures(set_field, (headers, name, value), set),
        call_ensures(add_field, (headers, low_name, bytes), added),
    ensures
        exists|m: &mut http::HeaderMap, taken: bool| #[trigger]
            call_ensures(put_header, (m, name, value), taken) && taken == set.1 && *m == headers
                && *final(m) == set.0,
        exists|m: &mut http::HeaderMap, taken: bool| #[trigger]
            call_ensures(add_header, (m, low_name, bytes), taken) && taken == added.1 && *m
                == headers && *final(m) == added.0,
{
}

} // verus!
