//! JSON values: what they hold, how they are put together, how they print.
use crate::text::texts;
use vstd::prelude::*;
use vstd::string::*;

verus! {

/// A JSON value as plain data. Object members keep the order in which they
/// were put in. A fraction is held as a number of hundredths, and any other
/// number that is no natural one as the text that it prints as.
pub enum JsonView {
    Null,
    Flag(bool),
    Count(nat),
    Hundredths(nat),
    Number(Seq<char>),
    Text(Seq<char>),
    List(Seq<JsonView>),
    Object(Seq<(Seq<char>, JsonView)>),
}

/// `serde_json::Value`, opaque to the proofs; [`json_view`] names what one holds.
#[verifier::external_type_specification]
#[verifier::external_body]
pub struct ExJsonValue(serde_json::Value);

/// `serde_json::Error`, opaque to the proofs.
#[verifier::external_type_specification]
#[verifier::external_body]
pub struct ExJsonError(serde_json::Error);

/// What a `serde_json::Value` holds.
pub uninterp spec fn json_view(v: serde_json::Value) -> JsonView;

/// What a sequence of values holds.
pub open spec fn json_views(s: Seq<serde_json::Value>) -> Seq<JsonView> {
    s.map_values(|v: serde_json::Value| json_view(v))
}

/// What a sequence of object members holds.
pub open spec fn member_views(s: Seq<(String, serde_json::Value)>) -> Seq<(Seq<char>, JsonView)> {
    s.map_values(|m: (String, serde_json::Value)| (m.0@, json_view(m.1)))
}

/// No key occurs twice.
pub open spec fn distinct_keys(s: Seq<(Seq<char>, JsonView)>) -> bool {
    forall|i: int, j: int| #![trigger s[i], s[j]] 0 <= i < j < s.len() ==> s[i].0 != s[j].0
}

/// The value that a JSON text denotes; `None` when it is no JSON text.
pub uninterp spec fn parsed_json(src: Seq<char>) -> Option<JsonView>;

/// Whether a value is made of texts, natural numbers, truth values and nulls,
/// nested at most `depth` deep.
pub open spec fn is_plain(v: JsonView, depth: nat) -> bool
    decreases v,
{
    match v {
        JsonView::Null => true,
        JsonView::Flag(_) => true,
        JsonView::Count(_) => true,
        JsonView::Text(_) => true,
        JsonView::Hundredths(_) => false,
        JsonView::Number(_) => false,
        JsonView::List(s) => depth > 0 && are_plain(s, (depth - 1) as nat),
        JsonView::Object(m) => depth > 0 && members_are_plain(m, (depth - 1) as nat),
    }
}

/// Whether all values are plain.
pub open spec fn are_plain(s: Seq<JsonView>, depth: nat) -> bool
    decreases s,
{
    s.len() == 0 || (are_plain(s.drop_last(), depth) && is_plain(s.last(), depth))
}

/// Whether the values of all members are plain.
pub open spec fn members_are_plain(m: Seq<(Seq<char>, JsonView)>, depth: nat) -> bool
    decreases m,
{
    m.len() == 0 || (members_are_plain(m.drop_last(), depth) && is_plain(m.last().1, depth))
}

/// The compact text of a JSON value.
pub uninterp spec fn compact_text(v: JsonView) -> Seq<char>;

/// The indented text of a JSON value.
pub uninterp spec fn pretty_text(v: JsonView) -> Seq<char>;

/// A hundredths count as a decimal fraction with two places.
pub open spec fn hundredths_text(n: nat) -> Seq<char> {
    crate::text::decimal(n / 100) + "."@ + crate::text::decimal(n / 10 % 10) + crate::text::decimal(
        n % 10,
    )
}

/// `serde_json::Value::Null`.
#[verifier::external_body]
pub(crate) fn json_null() -> (r: serde_json::Value)
    ensures
        json_view(r) == JsonView::Null,
{
    serde_json::Value::Null
}

/// `serde_json::Value::from` on a `bool` holds that truth value.
#[verifier::external_body]
pub(crate) fn json_flag(b: bool) -> (r: serde_json::Value)
    ensures
        json_view(r) == JsonView::Flag(b),
{
    serde_json::Value::from(b)
}

/// `serde_json::Value::from` on a `u64` holds that number.
#[verifier::external_body]
pub(crate) fn json_count(n: u64) -> (r: serde_json::Value)
    ensures
        json_view(r) == JsonView::Count(n as nat),
{
    serde_json::Value::from(n)
}

/// `serde_json::from_str` on a numeral with two decimal places holds the number
/// that the text denotes. The bound keeps the numbers apart as 64-bit fractions.
#[verifier::external_body]
pub(crate) fn json_fraction(text: &str) -> (r: serde_json::Value)
    ensures
        forall|n: nat|
            n <= u32::MAX && text@ == #[trigger] hundredths_text(n) ==> json_view(r)
                == JsonView::Hundredths(n),
{
    serde_json::from_str(text).unwrap_or(serde_json::Value::Null)
}

/// `serde_json::Value::from` on a `&str` holds that text.
#[verifier::external_body]
pub(crate) fn json_string(s: &str) -> (r: serde_json::Value)
    ensures
        json_view(r) == JsonView::Text(s@),
{
    serde_json::Value::from(s)
}

/// `serde_json::Value::Array` holds the given values in their order.
#[verifier::external_body]
pub(crate) fn json_list(items: Vec<serde_json::Value>) -> (r: serde_json::Value)
    ensures
        json_view(r) == JsonView::List(json_views(items@)),
{
    serde_json::Value::Array(items)
}

/// `serde_json::Value::Object` on members collected into a `serde_json::Map`
/// holds the given members in their order, where no key occurs twice.
#[verifier::external_body]
pub(crate) fn json_object(members: Vec<(String, serde_json::Value)>) -> (r: serde_json::Value)
    requires
        distinct_keys(member_views(members@)),
    ensures
        json_view(r) == JsonView::Object(member_views(members@)),
{
    serde_json::Value::Object(members.into_iter().collect())
}

/// `Display` of `serde_json::Value` prints compactly; the text depends on what
/// the value holds alone. `serde_json::from_str` gives a plain value back from
/// its text; its parser takes at least 100 levels of nesting. Line feeds and
/// carriage returns are escaped, so the text is a single line, and it is not
/// empty.
#[verifier::external_body]
pub(crate) fn print_compact(v: &serde_json::Value) -> (r: String)
    ensures
        r@ == compact_text(json_view(*v)),
        is_plain(json_view(*v), 100) ==> parsed_json(r@) == Some(json_view(*v)),
        r@.len() > 0,
        forall|i: int| 0 <= i < r@.len() ==> #[trigger] r@[i] != '\n' && r@[i] != '\r',
{
    v.to_string()
}

/// `Display` of `serde_json::Value` in its alternate form prints with
/// indentation; the text depends on what the value holds alone.
#[verifier::external_body]
pub(crate) fn print_pretty(v: &serde_json::Value) -> (r: String)
    ensures
        r@ == pretty_text(json_view(*v)),
{
    format!("{v:#}")
}

/// `serde_json::Value::from` on an `i64`: a natural number, or the digits of
/// the number behind a minus sign.
#[verifier::external_body]
pub(crate) fn json_integer(n: i64) -> (r: serde_json::Value)
    ensures
        json_view(r) == if n >= 0 {
            JsonView::Count(n as nat)
        } else {
            JsonView::Number("-"@ + crate::text::decimal((-n) as nat))
        },
{
    serde_json::Value::from(n)
}

/// `serde_json::from_str` as a `serde_json::Value`. The contract names the
/// value that the text denotes.
#[verifier::external_body]
pub(crate) fn parse_json(src: &str) -> (r: Result<serde_json::Value, serde_json::Error>)
    ensures
        match r {
            Ok(v) => parsed_json(src@) == Some(json_view(v)),
            Err(_) => parsed_json(src@) is None,
        },
{
    serde_json::from_str(src)
}

/// `Clone` of `serde_json::Value` holds the same.
#[verifier::external_body]
pub(crate) fn json_copy(v: &serde_json::Value) -> (r: serde_json::Value)
    ensures
        json_view(r) == json_view(*v),
{
    v.clone()
}

/// The value of a member; `None` where there is none or the value is no object.
pub open spec fn member_of(v: JsonView, key: Seq<char>) -> Option<JsonView> {
    match v {
        JsonView::Object(m) => crate::textmap::lookup(m, key),
        _ => None,
    }
}

/// What an optional value holds.
pub open spec fn opt_json(o: Option<&serde_json::Value>) -> Option<JsonView> {
    match o {
        Some(v) => Some(json_view(*v)),
        None => None,
    }
}

/// `serde_json::Value::get` with a text: the value of that member of an object,
/// where there is one.
#[verifier::external_body]
pub(crate) fn json_get<'a>(v: &'a serde_json::Value, key: &str) -> (r: Option<
    &'a serde_json::Value,
>)
    ensures
        opt_json(r) == member_of(json_view(*v), key@),
{
    v.get(key)
}

/// The text that a value is; `None` where it is none.
pub open spec fn text_of(v: JsonView) -> Option<Seq<char>> {
    match v {
        JsonView::Text(t) => Some(t),
        _ => None,
    }
}

/// `serde_json::Value::as_str`: the text of a value that is one.
#[verifier::external_body]
pub(crate) fn json_text<'a>(v: &'a serde_json::Value) -> (r: Option<&'a str>)
    ensures
        crate::diff::opt_str(r) == text_of(json_view(*v)),
{
    v.as_str()
}

/// `serde_json::Value::as_u64`: the number of a value that is a natural one.
#[verifier::external_body]
pub(crate) fn json_amount(v: &serde_json::Value) -> (r: Option<u64>)
    ensures
        match r {
            Some(n) => json_view(*v) == JsonView::Count(n as nat),
            None => !(json_view(*v) is Count),
        },
{
    v.as_u64()
}

/// `serde_json::Value::as_object`: the members of a value that is an object, in
/// their order. No key occurs twice.
#[verifier::external_body]
pub(crate) fn json_members(v: &serde_json::Value) -> (r: Option<Vec<(String, serde_json::Value)>>)
    ensures
        match r {
            Some(m) => json_view(*v) == JsonView::Object(member_views(m@)) && distinct_keys(
                member_views(m@),
            ),
            None => !(json_view(*v) is Object),
        },
{
    v.as_object().map(|m| m.iter().map(|(k, v)| (k.clone(), v.clone())).collect())
}

/// `serde_json::Value::as_array`: the values of a value that is a list, in
/// their order.
#[verifier::external_body]
pub(crate) fn json_items(v: &serde_json::Value) -> (r: Option<Vec<serde_json::Value>>)
    ensures
        match r {
            Some(s) => json_view(*v) == JsonView::List(json_views(s@)),
            None => !(json_view(*v) is List),
        },
{
    v.as_array().cloned()
}

/// A list of texts.
pub open spec fn text_list(s: Seq<Seq<char>>) -> JsonView {
    JsonView::List(s.map_values(|t: Seq<char>| JsonView::Text(t)))
}

/// A JSON list of texts.
pub(crate) fn json_strings(items: &Vec<String>) -> (r: serde_json::Value)
    ensures
        json_view(r) == text_list(texts(items@)),
{
    let mut out: Vec<serde_json::Value> = Vec::new();
    let mut i: usize = 0;
    while i < items.len()
        invariant
            i <= items@.len(),
            out@.len() == i,
            forall|j: int|
                0 <= j < i ==> json_view(#[trigger] out@[j]) == JsonView::Text(items@[j]@),
        decreases items@.len() - i,
    {
        out.push(json_string(items[i].as_str()));
        i = i + 1;
    }
    proof {
        assert(json_views(out@) =~= texts(items@).map_values(|t: Seq<char>| JsonView::Text(t)));
    }
    json_list(out)
}

/// A hundredths count as a JSON fraction.
pub(crate) fn json_hundredths(n: u32) -> (r: serde_json::Value)
    ensures
        json_view(r) == JsonView::Hundredths(n as nat),
{
    let text = hundredths(n);
    json_fraction(text.as_str())
}

/// A hundredths count as a decimal fraction with two places.
pub fn hundredths(n: u32) -> (r: String)
    ensures
        r@ == hundredths_text(n as nat),
{
    let mut s = crate::text::decimal_text((n / 100) as u64);
    s.append(".");
    s.append(crate::text::decimal_text((n / 10 % 10) as u64).as_str());
    s.append(crate::text::decimal_text((n % 10) as u64).as_str());
    s
}

/// A list of texts holds them in order.
pub proof fn text_lists_hold_their_texts(s: Seq<Seq<char>>)
    ensures
        text_list(s) is List,
        text_list(s)->List_0.len() == s.len(),
        forall|i: int|
            0 <= i < s.len() ==> #[trigger] text_list(s)->List_0[i] == JsonView::Text(s[i]),
{
}

/// Hundredths are written as the whole part and two places behind a dot.
pub proof fn hundredths_have_two_places(whole: nat, tenths: nat, rest: nat)
    requires
        tenths < 10,
        rest < 10,
    ensures
        hundredths_text(100 * whole + 10 * tenths + rest) == crate::text::decimal(whole) + "."@
            + crate::text::decimal(tenths) + crate::text::decimal(rest),
{
    let n = 100 * whole + 10 * tenths + rest;
    assert(n / 100 == whole);
    assert(n / 10 == 10 * whole + tenths);
    assert((10 * whole + tenths) % 10 == tenths);
    assert(n % 10 == rest);
}

} // verus!
