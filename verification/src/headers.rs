//! HTTP header maps, names and values, which are those of the `http` crate.
//! The trusted items below say what its functions do to the fields that a map
//! holds.
use vstd::prelude::*;
use vstd::utf8::*;

verus! {

/// A header value: its bytes, and whether it is marked as sensitive.
pub struct Field {
    pub bytes: Seq<u8>,
    pub sensitive: bool,
}

/// The fields of a header map: the values of each name, in the order in which
/// they were added.
pub type Fields = Map<Seq<char>, Seq<Field>>;

/// The number of names up to which a header map always takes one more. Beyond
/// it that can depend on how the names hash.
pub const SAFE_NAMES: usize = 6553;

/// A header map without fields.
pub open spec fn no_fields() -> Fields {
    Map::empty()
}

/// `fields` with `value` as one more value of `name`.
pub open spec fn appended(fields: Fields, name: Seq<char>, value: Field) -> Fields {
    fields.insert(
        name,
        (if fields.dom().contains(name) {
            fields[name]
        } else {
            seq![]
        }).push(value),
    )
}

/// The fields that a list of names and values makes up.
pub open spec fn grouped(pairs: Seq<(&http::HeaderName, &http::HeaderValue)>) -> Fields
    decreases pairs.len(),
{
    if pairs.len() == 0 {
        no_fields()
    } else {
        appended(
            grouped(pairs.drop_last()),
            name_text(*pairs.last().0),
            field(*pairs.last().1),
        )
    }
}

/// Whether `fields` has at most `n` names.
pub open spec fn has_at_most(fields: Fields, n: int) -> bool {
    fields.dom().finite() && fields.dom().len() <= n
}

/// Whether `s` can name a header as it stands: lower-case letters, digits and
/// hyphens, at least one of them.
pub open spec fn plain_name(s: Seq<char>) -> bool {
    &&& 0 < s.len() < 65536
    &&& forall|i: int| 0 <= i < s.len() ==> plain_name_char(#[trigger] s[i])
}

/// Whether `c` is a lower-case letter, a digit or a hyphen.
pub open spec fn plain_name_char(c: char) -> bool {
    'a' <= c <= 'z' || '0' <= c <= '9' || c == '-'
}

/// Whether `bytes` can be a header value: no control character but the tab.
pub open spec fn valid_value(bytes: Seq<u8>) -> bool {
    forall|i: int| 0 <= i < bytes.len() ==> valid_value_byte(#[trigger] bytes[i])
}

/// Whether `b` can stand in a header value.
pub open spec fn valid_value_byte(b: u8) -> bool {
    b >= 32 && b != 127 || b == 9
}

/// Whether `b` is a printable ASCII character or the tab.
pub open spec fn printable(b: u8) -> bool {
    32 <= b < 127 || b == 9
}

/// The text of a value that is made of ASCII characters.
pub open spec fn ascii_text(bytes: Seq<u8>) -> Seq<char> {
    bytes.map_values(|b: u8| b as char)
}

/// The first value of `name` as text. Empty where there is none, or where it
/// holds more than printable ASCII characters and tabs.
pub open spec fn first_text(fields: Fields, name: Seq<char>) -> Seq<char> {
    if fields.dom().contains(name) && fields[name][0].bytes.all(|b: u8| printable(b)) {
        ascii_text(fields[name][0].bytes)
    } else {
        seq![]
    }
}

/// `http::HeaderMap`.
#[verifier::external_type_specification]
#[verifier::external_body]
#[verifier::reject_recursive_types(T)]
pub struct ExHeaderMap<T>(http::HeaderMap<T>);

/// `http::HeaderName`.
#[verifier::external_type_specification]
#[verifier::external_body]
pub struct ExHeaderName(http::HeaderName);

/// `http::HeaderValue`.
#[verifier::external_type_specification]
#[verifier::external_body]
pub struct ExHeaderValue(http::HeaderValue);

/// `http::header::InvalidHeaderValue`.
#[verifier::external_type_specification]
#[verifier::external_body]
pub struct ExInvalidHeaderValue(http::header::InvalidHeaderValue);

/// `http::header::ToStrError`.
#[verifier::external_type_specification]
#[verifier::external_body]
pub struct ExToStrError(http::header::ToStrError);

/// `http::header::MaxSizeReached`.
#[verifier::external_type_specification]
#[verifier::external_body]
pub struct ExMaxSizeReached(http::header::MaxSizeReached);

/// The fields that a header map holds.
pub uninterp spec fn fields_of(m: http::HeaderMap<http::HeaderValue>) -> Fields;

/// The name that `http::HeaderName::as_str` gives: always in lower case.
pub uninterp spec fn name_text(n: http::HeaderName) -> Seq<char>;

/// The bytes that a header value holds.
pub uninterp spec fn value_bytes(v: http::HeaderValue) -> Seq<u8>;

/// Whether `http::HeaderValue::is_sensitive` holds of a header value.
pub uninterp spec fn value_is_sensitive(v: http::HeaderValue) -> bool;

/// A header value as a field.
pub open spec fn field(v: http::HeaderValue) -> Field {
    Field { bytes: value_bytes(v), sensitive: value_is_sensitive(v) }
}

/// `http::HeaderName::from_static`, which panics on a name that is not in
/// lower case or holds a character that no header name may hold.
pub assume_specification[ http::HeaderName::from_static ](src: &'static str) -> (r:
    http::HeaderName)
    requires
        plain_name(src@),
    ensures
        name_text(r) == src@,
;

/// `http::HeaderName::as_str`.
pub assume_specification[ http::HeaderName::as_str ](n: &http::HeaderName) -> (r: &str)
    ensures
        r@ == name_text(*n),
;

/// `Clone` of `http::HeaderName`: the copy has the same name.
pub assume_specification[ <http::HeaderName as Clone>::clone ](n: &http::HeaderName) -> (r:
    http::HeaderName)
    ensures
        name_text(r) == name_text(*n),
;

/// `http::HeaderValue::from_str`, which takes the bytes of the string as they
/// are and refuses control characters other than the tab.
pub assume_specification[ http::HeaderValue::from_str ](src: &str) -> (r: Result<
    http::HeaderValue,
    http::header::InvalidHeaderValue,
>)
    ensures
        r is Ok <==> valid_value(encode_utf8(src@)),
        r matches Ok(v) ==> value_bytes(v) == encode_utf8(src@) && !value_is_sensitive(v),
;

/// `http::HeaderValue::from_static`, which panics on a control character
/// other than the tab and on a byte above ASCII.
pub assume_specification[ http::HeaderValue::from_static ](src: &'static str) -> (r:
    http::HeaderValue)
    requires
        valid_value(encode_utf8(src@)),
        is_ascii_chars(src@),
    ensures
        value_bytes(r) == encode_utf8(src@),
        !value_is_sensitive(r),
;

/// `http::HeaderValue::set_sensitive`, which changes the mark alone.
pub assume_specification[ http::HeaderValue::set_sensitive ](v: &mut http::HeaderValue, val: bool)
    ensures
        value_bytes(*final(v)) == value_bytes(*old(v)),
        value_is_sensitive(*final(v)) == val,
;

/// `http::HeaderValue::to_str`, which gives the value as text where it holds
/// printable ASCII characters and tabs alone.
pub assume_specification[ http::HeaderValue::to_str ](v: &http::HeaderValue) -> (r: Result<
    &str,
    http::header::ToStrError,
>)
    ensures
        r is Ok <==> value_bytes(*v).all(|b: u8| printable(b)),
        r matches Ok(s) ==> s@ == ascii_text(value_bytes(*v)),
;

/// `Clone` of `http::HeaderValue`: the copy has the same bytes and the same
/// mark.
pub assume_specification[ <http::HeaderValue as Clone>::clone ](v: &http::HeaderValue) -> (r:
    http::HeaderValue)
    ensures
        value_bytes(r) == value_bytes(*v),
        value_is_sensitive(r) == value_is_sensitive(*v),
;

/// `http::HeaderMap::new`.
#[verifier::external_body]
pub(crate) fn new_map() -> (r: http::HeaderMap<http::HeaderValue>)
    ensures
        fields_of(r) == no_fields(),
{
    http::HeaderMap::new()
}

/// `http::HeaderMap::iter`: each name with each of its values. The order of
/// the names is left open; the values of one name come in the order in which
/// they were added.
#[verifier::external_body]
pub(crate) fn pairs(m: &http::HeaderMap<http::HeaderValue>) -> (r: Vec<
    (&http::HeaderName, &http::HeaderValue),
>)
    ensures
        grouped(r@) == fields_of(*m),
{
    m.iter().collect()
}

/// `http::HeaderMap::try_append`: the value becomes the last one of its name.
/// The call fails, and leaves the fields as they are, where the map would have
/// to grow beyond what it can hold. Up to `SAFE_NAMES` names it does not; with
/// more of them it can depend on how the names hash.
#[verifier::external_body]
pub(crate) fn append(
    m: &mut http::HeaderMap<http::HeaderValue>,
    name: http::HeaderName,
    value: http::HeaderValue,
) -> (r: Result<bool, http::header::MaxSizeReached>)
    ensures
        has_at_most(fields_of(*old(m)), SAFE_NAMES as int) ==> r is Ok,
        fields_of(*final(m)) == (if r is Ok {
            appended(fields_of(*old(m)), name_text(name), field(value))
        } else {
            fields_of(*old(m))
        }),
{
    m.try_append(name, value)
}

/// `http::HeaderMap::try_insert`: the value becomes the only one of its name.
/// The call fails where `try_append` does.
#[verifier::external_body]
pub(crate) fn insert(
    m: &mut http::HeaderMap<http::HeaderValue>,
    name: http::HeaderName,
    value: http::HeaderValue,
) -> (r: Result<Option<http::HeaderValue>, http::header::MaxSizeReached>)
    ensures
        has_at_most(fields_of(*old(m)), SAFE_NAMES as int) ==> r is Ok,
        fields_of(*final(m)) == (if r is Ok {
            fields_of(*old(m)).insert(name_text(name), seq![field(value)])
        } else {
            fields_of(*old(m))
        }),
{
    m.try_insert(name, value)
}

/// `http::HeaderMap::contains_key` with a string that names a header.
#[verifier::external_body]
pub(crate) fn has(m: &http::HeaderMap<http::HeaderValue>, name: &str) -> (r: bool)
    requires
        plain_name(name@),
    ensures
        r == fields_of(*m).dom().contains(name@),
{
    m.contains_key(name)
}

/// `http::HeaderMap::get` with a string that names a header: the first value
/// of that name, where there is one.
#[verifier::external_body]
pub(crate) fn first<'a>(m: &'a http::HeaderMap<http::HeaderValue>, name: &str) -> (r: Option<
    &'a http::HeaderValue,
>)
    requires
        plain_name(name@),
    ensures
        r is Some <==> fields_of(*m).dom().contains(name@),
        r matches Some(v) ==> fields_of(*m)[name@].len() > 0 && fields_of(*m)[name@][0] == field(
            *v,
        ),
{
    m.get(name)
}

/// `http::HeaderMap::remove` with a string that names a header: all values of
/// that name are gone.
#[verifier::external_body]
pub(crate) fn remove(m: &mut http::HeaderMap<http::HeaderValue>, name: &str)
    requires
        plain_name(name@),
    ensures
        fields_of(*final(m)) == fields_of(*old(m)).remove(name@),
{
    m.remove(name);
}

/// The first value of the content type as text; empty where there is none.
pub fn content_type(m: &http::HeaderMap<http::HeaderValue>) -> (r: String)
    ensures
        r@ == first_text(fields_of(*m), "content-type"@),
{
    proof {
        reveal_strlit("content-type");
    }
    match first(m, "content-type") {
        Some(value) => match value.to_str() {
            Ok(s) => s.to_string(),
            Err(_) => String::new(),
        },
        None => String::new(),
    }
}

/// The text of a header is its first value, where that is made of printable
/// ASCII characters and tabs, and empty where there is none or it is not.
pub proof fn law_text_of_a_header(fields: Fields, name: Seq<char>, i: int)
    ensures
        !fields.dom().contains(name) ==> first_text(fields, name) == Seq::<char>::empty(),
        fields.dom().contains(name) && 0 <= i < fields[name][0].bytes.len() && !(32
            <= fields[name][0].bytes[i] < 127 || fields[name][0].bytes[i] == 9) ==> first_text(
            fields,
            name,
        ) == Seq::<char>::empty(),
        fields.dom().contains(name) && (forall|k: int|
            0 <= k < fields[name][0].bytes.len() ==> 32 <= #[trigger] fields[name][0].bytes[k] < 127
                || fields[name][0].bytes[k] == 9) ==> {
            &&& first_text(fields, name).len() == fields[name][0].bytes.len()
            &&& 0 <= i < fields[name][0].bytes.len() ==> first_text(fields, name)[i] as u32
                == fields[name][0].bytes[i]
        },
{
    if fields.dom().contains(name) {
        let bytes = fields[name][0].bytes;
        if 0 <= i < bytes.len() && !(32 <= bytes[i] < 127 || bytes[i] == 9) {
            let pred = |b: u8| printable(b);
            if bytes.all(pred) {
                assert(pred(bytes[i]));
            }
        }
        if forall|k: int| 0 <= k < bytes.len() ==> 32 <= #[trigger] bytes[k] < 127 || bytes[k] == 9 {
            assert forall|k: int| 0 <= k < bytes.len() implies printable(#[trigger] bytes[k]) by {}
            assert(bytes.all(|b: u8| printable(b)));
        }
    }
}

/// A value that is added to a name comes after those that are there, and leaves
/// the other names as they are.
pub proof fn law_adding_a_value(fields: Fields, name: Seq<char>, value: Field, other: Seq<char>)
    ensures
        appended(fields, name, value).dom() == fields.dom().insert(name),
        fields.dom().contains(name) ==> appended(fields, name, value)[name] == fields[name].push(
            value,
        ),
        !fields.dom().contains(name) ==> appended(fields, name, value)[name] == seq![value],
        other != name && fields.dom().contains(other) ==> appended(fields, name, value)[other]
            == fields[other],
{
    assert(appended(fields, name, value).dom() =~= fields.dom().insert(name));
    if !fields.dom().contains(name) {
        assert(Seq::<Field>::empty().push(value) =~= seq![value]);
    }
}

} // verus!
