//! JSON texts: how they are written, and what is read of them.

use crate::hex_digits::hex_digit;
use crate::text::{chars_of, decimal, decimal_text, digit};
use serde_json::Value;
use vstd::prelude::*;

verus! {

/// How a character is written in a JSON string.
pub open spec fn escaped_char(c: char) -> Seq<char> {
    if c == '"' || c == '\\' {
        seq!['\\', c]
    } else if c as int == 8 {
        seq!['\\', 'b']
    } else if c as int == 9 {
        seq!['\\', 't']
    } else if c as int == 10 {
        seq!['\\', 'n']
    } else if c as int == 12 {
        seq!['\\', 'f']
    } else if c as int == 13 {
        seq!['\\', 'r']
    } else if (c as int) < 32 {
        seq!['\\', 'u', '0', '0', hex_digit(c as int / 16), hex_digit(c as int % 16)]
    } else {
        seq![c]
    }
}

/// How a text is written inside a JSON string.
pub open spec fn escaped(text: Seq<char>) -> Seq<char>
    decreases text.len(),
{
    if text.len() == 0 {
        Seq::empty()
    } else {
        escaped(text.drop_last()) + escaped_char(text.last())
    }
}

/// A text as a JSON string.
pub open spec fn json_string(text: Seq<char>) -> Seq<char> {
    seq!['"'] + escaped(text) + seq!['"']
}

/// `serde_json::Value::from` on a text and its `to_string`: the text in quotes,
/// with a backslash before quotes and backslashes, short escapes for the
/// control characters that have one, `\u00` and two digits for the other
/// characters below a space, and every other character as it is.
#[verifier::external_body]
pub(crate) fn string_text(text: &str) -> (json: String)
    ensures
        json@ == json_string(text@),
{
    Value::from(text).to_string()
}

/// Texts one after another, with commas between.
pub open spec fn joined(items: Seq<Seq<char>>) -> Seq<char>
    decreases items.len(),
{
    if items.len() == 0 {
        Seq::empty()
    } else if items.len() == 1 {
        items[0]
    } else {
        joined(items.drop_last()) + seq![','] + items.last()
    }
}

/// The contents of some texts.
pub open spec fn texts(items: Seq<String>) -> Seq<Seq<char>> {
    items.map_values(|item: String| item@)
}

/// A JSON array of values that are JSON texts.
pub open spec fn json_array(items: Seq<Seq<char>>) -> Seq<char> {
    seq!['['] + joined(items) + seq![']']
}

/// A member of a JSON object: its key, and its value as a JSON text.
pub open spec fn json_member(member: (Seq<char>, Seq<char>)) -> Seq<char> {
    json_string(member.0) + seq![':'] + member.1
}

/// A JSON object of these members, in their order.
pub open spec fn json_object(members: Seq<(Seq<char>, Seq<char>)>) -> Seq<char> {
    seq!['{'] + joined(
        members.map_values(|member: (Seq<char>, Seq<char>)| json_member(member)),
    ) + seq!['}']
}

/// Writes texts one after another, with commas between.
fn join(items: &Vec<String>) -> (text: String)
    ensures
        text@ == joined(texts(items@)),
{
    let ghost all = texts(items@);
    let mut text = String::new();
    let mut i: usize = 0;
    assert(all.take(0) =~= Seq::<Seq<char>>::empty());
    while i < items.len()
        invariant
            i <= items@.len(),
            all == texts(items@),
            text@ == joined(all.take(i as int)),
        decreases items@.len() - i,
    {
        if i > 0 {
            text.append(",");
        }
        text.append(items[i].as_str());
        proof {
            reveal_strlit(",");
            assert(","@ =~= seq![',']);
            assert(all.take(i + 1).drop_last() =~= all.take(i as int));
            if i == 0 {
                assert(text@ =~= all[0]);
            }
        }
        i += 1;
    }
    assert(all.take(i as int) =~= all);
    text
}

/// Writes a JSON array of values that are JSON texts.
pub fn array_text(items: &Vec<String>) -> (json: String)
    ensures
        json@ == json_array(texts(items@)),
{
    proof {
        reveal_strlit("[");
        reveal_strlit("]");
        assert("["@ =~= seq!['[']);
        assert("]"@ =~= seq![']']);
    }
    "[".to_owned().concat(join(items).as_str()).concat("]")
}

/// A member of a JSON object that is being written.
pub struct Member {
    pub key: &'static str,
    /// The value, as a JSON text.
    pub value: String,
}

impl View for Member {
    type V = (Seq<char>, Seq<char>);

    open spec fn view(&self) -> (Seq<char>, Seq<char>) {
        (self.key@, self.value@)
    }
}

/// The keys and values of some members.
pub open spec fn members_of(members: Seq<Member>) -> Seq<(Seq<char>, Seq<char>)> {
    members.map_values(|member: Member| member@)
}

/// Writes a JSON object of these members, in their order.
pub fn object_text(members: &Vec<Member>) -> (json: String)
    ensures
        json@ == json_object(members_of(members@)),
{
    let ghost wanted = members_of(members@).map_values(
        |member: (Seq<char>, Seq<char>)| json_member(member),
    );
    let mut items: Vec<String> = Vec::new();
    let mut i: usize = 0;
    while i < members.len()
        invariant
            i <= members@.len(),
            wanted == members_of(members@).map_values(
                |member: (Seq<char>, Seq<char>)| json_member(member),
            ),
            items@.len() == i,
            forall|n: int| 0 <= n < i ==> (#[trigger] items@[n])@ == wanted[n],
        decreases members@.len() - i,
    {
        proof {
            reveal_strlit(":");
            assert(":"@ =~= seq![':']);
        }
        let item = string_text(members[i].key).concat(":").concat(members[i].value.as_str());
        assert(item@ =~= wanted[i as int]);
        items.push(item);
        i += 1;
    }
    proof {
        assert(texts(items@) =~= wanted);
        reveal_strlit("{");
        reveal_strlit("}");
        assert("{"@ =~= seq!['{']);
        assert("}"@ =~= seq!['}']);
    }
    "{".to_owned().concat(join(&items).as_str()).concat("}")
}

/// A list of small numbers as a JSON array.
pub open spec fn json_numbers(numbers: Seq<u8>) -> Seq<char> {
    json_array(numbers.map_values(|number: u8| decimal(number as nat)))
}

/// Writes a list of small numbers as a JSON array.
pub fn numbers_text(numbers: &[u8]) -> (json: String)
    ensures
        json@ == json_numbers(numbers@),
{
    let mut items: Vec<String> = Vec::new();
    let mut i: usize = 0;
    while i < numbers.len()
        invariant
            i <= numbers@.len(),
            items@.len() == i,
            forall|n: int| 0 <= n < i ==> (#[trigger] items@[n])@ == decimal(numbers@[n] as nat),
        decreases numbers@.len() - i,
    {
        items.push(decimal_text(numbers[i] as u64));
        i += 1;
    }
    assert(texts(items@) =~= numbers@.map_values(|number: u8| decimal(number as nat)));
    array_text(&items)
}

/// Whether a character is a decimal digit.
pub open spec fn is_digit(c: char) -> bool {
    '0' <= c <= '9'
}

/// Whether a character stands at a place of a text.
pub open spec fn has_at(text: Seq<char>, i: int, c: char) -> bool {
    0 <= i < text.len() && text[i] == c
}

/// The end of the digits that stand in a text from a place on.
pub open spec fn digits_end(text: Seq<char>, i: int) -> int
    decreases text.len() - i,
{
    if 0 <= i < text.len() && is_digit(text[i]) {
        digits_end(text, i + 1)
    } else {
        i
    }
}

/// The end of the whole part of a number: digits, the first of them no zero
/// unless it is the only one.
pub open spec fn whole_end(text: Seq<char>, i: int) -> Option<int> {
    let end = digits_end(text, i);
    if end == i || (text[i] == '0' && end > i + 1) {
        None
    } else {
        Some(end)
    }
}

/// The end of the fraction of a number: none, or a point and digits.
pub open spec fn fraction_end(text: Seq<char>, i: int) -> Option<int> {
    let end = digits_end(text, i + 1);
    if !has_at(text, i, '.') {
        Some(i)
    } else if end == i + 1 {
        None
    } else {
        Some(end)
    }
}

/// The end of the exponent of a number: none, or `e`, perhaps a sign, and
/// digits.
pub open spec fn exponent_end(text: Seq<char>, i: int) -> Option<int> {
    let start = if has_at(text, i + 1, '+') || has_at(text, i + 1, '-') {
        i + 2
    } else {
        i + 1
    };
    let end = digits_end(text, start);
    if !has_at(text, i, 'e') && !has_at(text, i, 'E') {
        Some(i)
    } else if end == start {
        None
    } else {
        Some(end)
    }
}

/// Whether a text is a JSON number: perhaps a minus sign, a whole part, perhaps
/// a fraction, perhaps an exponent, and nothing else.
pub open spec fn is_json_number(text: Seq<char>) -> bool {
    let start = if has_at(text, 0, '-') {
        1int
    } else {
        0int
    };
    &&& whole_end(text, start) matches Some(whole)
    &&& fraction_end(text, whole) matches Some(fraction)
    &&& exponent_end(text, fraction) == Some(text.len() as int)
}

/// Whether a character stands at a place of a text.
fn stands(text: &Vec<char>, i: usize, c: char) -> (found: bool)
    ensures
        found == has_at(text@, i as int, c),
{
    i < text.len() && text[i] == c
}

/// Finds the end of the digits that stand in a text from a place on.
fn skip_digits(text: &Vec<char>, start: usize) -> (end: usize)
    requires
        start <= text@.len(),
    ensures
        end == digits_end(text@, start as int),
        start <= end <= text@.len(),
{
    let mut end: usize = start;
    while end < text.len() && '0' <= text[end] && text[end] <= '9'
        invariant
            start <= end <= text@.len(),
            digits_end(text@, start as int) == digits_end(text@, end as int),
        decreases text@.len() - end,
    {
        end += 1;
    }
    end
}

/// Whether a text is a JSON number.
pub fn is_number_text(text: &str) -> (is: bool)
    ensures
        is == is_json_number(text@),
{
    let chars = chars_of(text);
    let start: usize = if stands(&chars, 0, '-') {
        1
    } else {
        0
    };
    let whole: usize = skip_digits(&chars, start);
    if whole == start || (chars[start] == '0' && whole > start + 1) {
        return false;
    }
    let mut end: usize = whole;
    if stands(&chars, end, '.') {
        let from: usize = end + 1;
        end = skip_digits(&chars, from);
        if end == from {
            return false;
        }
    }
    if stands(&chars, end, 'e') || stands(&chars, end, 'E') {
        let mut from: usize = end + 1;
        if stands(&chars, from, '+') || stands(&chars, from, '-') {
            from += 1;
        }
        end = skip_digits(&chars, from);
        if end == from {
            return false;
        }
    }
    end == chars.len()
}

/// Digits end before the first character that is none.
pub(crate) proof fn lemma_digits_end(text: Seq<char>, i: int, end: int)
    requires
        0 <= i <= end <= text.len(),
        forall|j: int| i <= j < end ==> is_digit(#[trigger] text[j]),
        end < text.len() ==> !is_digit(text[end]),
    ensures
        digits_end(text, i) == end,
    decreases end - i,
{
    if i < end {
        assert(is_digit(text[i]));
        lemma_digits_end(text, i + 1, end);
    }
}

/// A number in decimal is digits, and starts with a zero only if it is zero.
proof fn lemma_decimal_digits(n: nat)
    ensures
        decimal(n).len() >= 1,
        forall|i: int| 0 <= i < decimal(n).len() ==> is_digit(#[trigger] decimal(n)[i]),
        n > 0 ==> decimal(n)[0] != '0',
        n == 0 ==> decimal(n).len() == 1,
    decreases n,
{
    assert forall|d: int| 0 <= d < 10 implies is_digit(#[trigger] digit(d)) && (d > 0 ==> digit(d)
        != '0') by {}
    if n >= 10 {
        lemma_decimal_digits(n / 10);
        let last = digit((n % 10) as int);
        assert(is_digit(last));
        assert forall|i: int| 0 <= i < decimal(n).len() implies is_digit(
            #[trigger] decimal(n)[i],
        ) by {
            if i < decimal(n / 10).len() {
                assert(decimal(n)[i] == decimal(n / 10)[i]);
            }
        }
    } else {
        assert(is_digit(digit(n as int)));
    }
}

/// A decimal with a fraction of zero is a JSON number.
pub(crate) proof fn lemma_whole_number(n: nat)
    ensures
        is_json_number(decimal(n) + ".0"@),
{
    reveal_strlit(".0");
    let text = decimal(n) + ".0"@;
    let len = decimal(n).len() as int;
    lemma_decimal_digits(n);
    assert(text[0] == decimal(n)[0]);
    assert(is_digit(decimal(n)[0]));
    assert(text[len] == '.' && text[len + 1] == '0' && text.len() == len + 2);
    assert forall|j: int| 0 <= j < len implies is_digit(#[trigger] text[j]) by {
        assert(text[j] == decimal(n)[j]);
    }
    lemma_digits_end(text, 0, len);
    lemma_digits_end(text, len + 1, len + 2);
}

/// What is read of a JSON document: the members of an object, each with its
/// text if it holds text.
pub enum Document {
    Object(Vec<(String, Option<String>)>),
    /// Anything but an object.
    Other,
}

/// A key with the text that it holds, if it holds text.
pub open spec fn entry_view(entry: (String, Option<String>)) -> (Seq<char>, Option<Seq<char>>) {
    (
        entry.0@,
        match entry.1 {
            Some(text) => Some(text@),
            None => None,
        },
    )
}

impl View for Document {
    type V = Option<Seq<(Seq<char>, Option<Seq<char>>)>>;

    open spec fn view(&self) -> Option<Seq<(Seq<char>, Option<Seq<char>>)>> {
        match self {
            Document::Object(entries) => Some(
                entries@.map_values(|entry: (String, Option<String>)| entry_view(entry)),
            ),
            Document::Other => None,
        }
    }
}

/// The document that a text holds, if it is JSON: the members of an object,
/// each with its text if it holds text, or that it is no object.
pub uninterp spec fn json_document(
    text: Seq<char>,
) -> Option<Option<Seq<(Seq<char>, Option<Seq<char>>)>>>;

/// `serde_json::from_str` into a `Value`, with `Value::as_str` on what the
/// members of an object hold: what is read of the document, or nothing if the
/// text is not JSON. It depends on the text alone; which texts
/// are JSON, and what they hold, stays unsaid.
#[verifier::external_body]
pub(crate) fn parse_document(text: &str) -> (document: Option<Document>)
    ensures
        match document {
            Some(d) => json_document(text@) == Some(d@),
            None => json_document(text@) is None,
        },
{
    match serde_json::from_str(text) {
        Ok(Value::Object(map)) => Some(Document::Object(
            map.into_iter().map(|(key, held)| (key, held.as_str().map(String::from))).collect(),
        )),
        Ok(Value::Null) => Some(Document::Other),
        Ok(Value::Bool(_)) => Some(Document::Other),
        Ok(Value::Number(_)) => Some(Document::Other),
        Ok(Value::String(_)) => Some(Document::Other),
        Ok(Value::Array(_)) => Some(Document::Other),
        Err(_) => None,
    }
}

} // verus!
