//! JSON texts tell apart what they are written of.

use crate::json::{
    digits_end, escaped, escaped_char, fraction_end, has_at, is_digit, is_json_number, joined,
    json_array, json_member, json_numbers, json_object, json_string, lemma_digits_end, whole_end,
};
use crate::text::{
    decimal, law_decimal_reads_back, law_signed_decimal_reads_back, signed_decimal, value_of,
};
use vstd::prelude::*;

verus! {

/// Whether a text goes on with what can stand after a value.
pub open spec fn ends(rest: Seq<char>) -> bool {
    rest.len() > 0 && (rest[0] == ',' || rest[0] == ']' || rest[0] == '}')
}

/// Whether a text holds nothing that can stand after a value.
pub open spec fn bare(text: Seq<char>) -> bool {
    forall|i: int|
        0 <= i < text.len() ==> #[trigger] text[i] != ',' && text[i] != ']' && text[i] != '}'
}

/// What follows equal texts in equal texts is equal.
pub(crate) proof fn lemma_same_rest(a: Seq<char>, u: Seq<char>, v: Seq<char>)
    requires
        a + u == a + v,
    ensures
        u == v,
{
    assert((a + u).skip(a.len() as int) =~= u);
    assert((a + v).skip(a.len() as int) =~= v);
}

/// Bare texts end where what follows them begins.
pub(crate) proof fn lemma_bare_cancel(a: Seq<char>, u: Seq<char>, b: Seq<char>, v: Seq<char>)
    requires
        a + u == b + v,
        bare(a),
        bare(b),
        ends(u),
        ends(v),
    ensures
        a == b,
        u == v,
{
    let whole = a + u;
    assert(whole[a.len() as int] == u[0]);
    assert(whole[b.len() as int] == v[0]);
    if a.len() < b.len() {
        assert(whole[a.len() as int] == b[a.len() as int]);
    }
    if b.len() < a.len() {
        assert(whole[b.len() as int] == a[b.len() as int]);
    }
    assert(whole.take(a.len() as int) =~= a);
    assert(whole.take(b.len() as int) =~= b);
    lemma_same_rest(a, u, v);
}

pub(crate) proof fn lemma_decimal_is_bare(n: nat)
    ensures
        bare(decimal(n)),
        decimal(n).len() > 0,
{
    law_decimal_reads_back(n);
    assert forall|i: int| 0 <= i < decimal(n).len() implies #[trigger] decimal(n)[i] != ','
        && decimal(n)[i] != ']' && decimal(n)[i] != '}' by {
        assert('0' <= decimal(n)[i] <= '9');
    }
}

pub(crate) proof fn lemma_signed_decimal_is_bare(n: int)
    ensures
        bare(signed_decimal(n)),
        signed_decimal(n).len() > 0,
{
    if n < 0 {
        lemma_decimal_is_bare((-n) as nat);
        assert forall|i: int| 0 <= i < signed_decimal(n).len() implies #[trigger] signed_decimal(
            n,
        )[i] != ',' && signed_decimal(n)[i] != ']' && signed_decimal(n)[i] != '}' by {
            if i > 0 {
                assert(signed_decimal(n)[i] == decimal((-n) as nat)[i - 1]);
            }
        }
    } else {
        lemma_decimal_is_bare(n as nat);
    }
}

/// Digits are digits up to their end.
proof fn lemma_digits_before_end(text: Seq<char>, i: int)
    requires
        0 <= i <= text.len(),
    ensures
        i <= digits_end(text, i) <= text.len(),
        forall|j: int| i <= j < digits_end(text, i) ==> is_digit(#[trigger] text[j]),
        digits_end(text, i) < text.len() ==> !is_digit(text[digits_end(text, i)]),
    decreases text.len() - i,
{
    if i < text.len() && is_digit(text[i]) {
        lemma_digits_before_end(text, i + 1);
    }
}

/// Whether a text is digits, one at least.
pub open spec fn digits(text: Seq<char>) -> bool {
    text.len() > 0 && forall|i: int|
        0 <= i < text.len() ==> '0' <= #[trigger] text[i] && text[i] <= '9'
}

/// A text is a JSON number if and only if it is made of these parts: nothing or
/// a minus sign; digits that start with zero only if that is all; nothing or a
/// point and digits; and nothing or `e`, perhaps with a sign, and digits. This
/// is one half: what is made of such parts is a number.
pub proof fn law_numbers_are_made_of_parts(
    sign: Seq<char>,
    whole: Seq<char>,
    fraction: Seq<char>,
    exponent: Seq<char>,
)
    requires
        sign.len() == 0 || sign == seq!['-'],
        digits(whole),
        whole.len() > 1 ==> whole[0] != '0',
        fraction.len() == 0 || (fraction[0] == '.' && digits(fraction.skip(1))),
        exponent.len() == 0 || ((exponent[0] == 'e' || exponent[0] == 'E') && (digits(
            exponent.skip(1),
        ) || (exponent.len() > 1 && (exponent[1] == '+' || exponent[1] == '-') && digits(
            exponent.skip(2),
        )))),
    ensures
        is_json_number(sign + whole + fraction + exponent),
{
    let text = sign + whole + fraction + exponent;
    let a = sign.len() as int;
    let b = a + whole.len();
    let c = b + fraction.len();
    let n = text.len() as int;
    assert forall|j: int| 0 <= j < whole.len() implies text[a + j] == #[trigger] whole[j] by {}
    assert forall|j: int| a <= j < b implies is_digit(#[trigger] text[j]) by {
        assert(text[j] == whole[j - a]);
        assert('0' <= whole[j - a] <= '9');
    }
    assert(text[a] == whole[0]);
    assert('0' <= whole[0] <= '9');
    if fraction.len() > 0 {
        assert(text[b] == '.');
    } else if exponent.len() > 0 {
        assert(text[b] == exponent[0]);
    }
    lemma_digits_end(text, a, b);
    if fraction.len() > 0 {
        assert forall|j: int| b + 1 <= j < c implies is_digit(#[trigger] text[j]) by {
            assert(text[j] == fraction[j - b]);
            assert(fraction.skip(1)[j - b - 1] == fraction[j - b]);
        }
        if exponent.len() > 0 {
            assert(text[c] == exponent[0]);
        }
        lemma_digits_end(text, b + 1, c);
    }
    if exponent.len() > 0 {
        assert(text[c] == exponent[0]);
        if exponent.len() > 1 {
            assert(text[c + 1] == exponent[1]);
        }
        if digits(exponent.skip(1)) {
            assert(exponent.skip(1)[0] == exponent[1]);
            assert forall|j: int| c + 1 <= j < n implies is_digit(#[trigger] text[j]) by {
                assert(text[j] == exponent[j - c]);
                assert(exponent.skip(1)[j - c - 1] == exponent[j - c]);
            }
            lemma_digits_end(text, c + 1, n);
        } else {
            assert forall|j: int| c + 2 <= j < n implies is_digit(#[trigger] text[j]) by {
                assert(text[j] == exponent[j - c]);
                assert(exponent.skip(2)[j - c - 2] == exponent[j - c]);
            }
            lemma_digits_end(text, c + 2, n);
        }
    }
}

/// The other half: a number can be taken apart into a sign, digits, a fraction
/// and an exponent.
pub proof fn law_numbers_come_apart(text: Seq<char>) -> (parts: (
    Seq<char>,
    Seq<char>,
    Seq<char>,
    Seq<char>,
))
    requires
        is_json_number(text),
    ensures
        text == parts.0 + parts.1 + parts.2 + parts.3,
        parts.0.len() == 0 || parts.0 == seq!['-'],
        digits(parts.1),
        parts.1.len() > 1 ==> parts.1[0] != '0',
        parts.2.len() == 0 || (parts.2[0] == '.' && digits(parts.2.skip(1))),
        parts.3.len() == 0 || ((parts.3[0] == 'e' || parts.3[0] == 'E') && (digits(
            parts.3.skip(1),
        ) || (parts.3.len() > 1 && (parts.3[1] == '+' || parts.3[1] == '-') && digits(
            parts.3.skip(2),
        )))),
{
    let a: int = if has_at(text, 0, '-') {
        1
    } else {
        0
    };
    let b = whole_end(text, a)->0;
    let c = fraction_end(text, b)->0;
    let n = text.len() as int;
    lemma_digits_before_end(text, a);
    if has_at(text, b, '.') {
        lemma_digits_before_end(text, b + 1);
    }
    let d: int = if has_at(text, c + 1, '+') || has_at(text, c + 1, '-') {
        c + 2
    } else {
        c + 1
    };
    if has_at(text, c, 'e') || has_at(text, c, 'E') {
        lemma_digits_before_end(text, d);
    }
    let sign = text.subrange(0, a);
    let whole = text.subrange(a, b);
    let fraction = text.subrange(b, c);
    let exponent = text.subrange(c, n);
    assert(text =~= sign + whole + fraction + exponent);
    if a == 1 {
        assert(sign =~= seq!['-']);
    }
    assert(forall|j: int| 0 <= j < whole.len() ==> #[trigger] whole[j] == text[a + j]);
    assert forall|j: int| 0 <= j < whole.len() implies '0' <= #[trigger] whole[j] <= '9' by {
        assert(is_digit(text[a + j]));
    }
    if fraction.len() > 0 {
        assert forall|j: int| 0 <= j < fraction.skip(1).len() implies '0'
            <= #[trigger] fraction.skip(1)[j] && fraction.skip(1)[j] <= '9' by {
            assert(is_digit(text[b + 1 + j]));
        }
    }
    if exponent.len() > 0 {
        let tail = exponent.skip(d - c);
        assert forall|j: int| 0 <= j < tail.len() implies '0' <= #[trigger] tail[j] && tail[j]
            <= '9' by {
            assert(is_digit(text[d + j]));
        }
        assert(digits(tail));
    }
    (sign, whole, fraction, exponent)
}

pub(crate) proof fn lemma_number_is_bare(text: Seq<char>)
    requires
        is_json_number(text),
    ensures
        bare(text),
        text.len() > 0,
{
    let (sign, whole, fraction, exponent) = law_numbers_come_apart(text);
    assert forall|i: int| 0 <= i < text.len() implies #[trigger] text[i] != ',' && text[i] != ']'
        && text[i] != '}' by {
        let b = sign.len() + whole.len();
        let c = b + fraction.len();
        if sign.len() <= i < b {
            assert(text[i] == whole[i - sign.len()]);
        } else if b < i < c {
            assert(text[i] == fraction.skip(1)[i - b - 1]);
        } else if c <= i {
            assert(text[i] == exponent[i - c]);
            if digits(exponent.skip(1)) {
                if i > c {
                    assert(text[i] == exponent.skip(1)[i - c - 1]);
                }
            } else if i > c + 1 {
                assert(text[i] == exponent.skip(2)[i - c - 2]);
            }
        }
    }
}

/// Texts are escaped one character after another.
proof fn lemma_escaped_front(text: Seq<char>)
    requires
        text.len() > 0,
    ensures
        escaped(text) == escaped_char(text[0]) + escaped(text.drop_first()),
    decreases text.len(),
{
    if text.len() == 1 {
        assert(text.drop_last() =~= Seq::<char>::empty());
        assert(text.drop_first() =~= Seq::<char>::empty());
        assert(escaped(text) =~= escaped_char(text[0]) + escaped(text.drop_first()));
    } else {
        lemma_escaped_front(text.drop_last());
        assert(text.drop_last().drop_first() =~= text.drop_first().drop_last());
        assert(escaped(text) =~= escaped_char(text[0]) + escaped(text.drop_first()));
    }
}

/// Characters are told apart by how they are escaped, whatever follows them.
proof fn lemma_escaped_char_cancel(c: char, u: Seq<char>, d: char, v: Seq<char>)
    requires
        escaped_char(c) + u == escaped_char(d) + v,
    ensures
        c == d,
        u == v,
{
    let whole = escaped_char(c) + u;
    assert(whole[0] == escaped_char(c)[0]);
    assert(whole[0] == escaped_char(d)[0]);
    if escaped_char(c).len() > 1 {
        assert(whole[1] == escaped_char(c)[1]);
    }
    if escaped_char(d).len() > 1 {
        assert(whole[1] == escaped_char(d)[1]);
    }
    if escaped_char(c).len() == 6 && escaped_char(d).len() == 6 {
        assert(whole[4] == escaped_char(c)[4] && whole[4] == escaped_char(d)[4]);
        assert(whole[5] == escaped_char(c)[5] && whole[5] == escaped_char(d)[5]);
        assert(c as int == 16 * (c as int / 16) + c as int % 16);
        assert(d as int == 16 * (d as int / 16) + d as int % 16);
    }
    assert(c == d);
    lemma_same_rest(escaped_char(c), u, v);
}

/// Escaped texts end at the first quote, whatever follows it.
proof fn lemma_escaped_cancel(a: Seq<char>, u: Seq<char>, b: Seq<char>, v: Seq<char>)
    requires
        escaped(a) + seq!['"'] + u == escaped(b) + seq!['"'] + v,
    ensures
        a == b,
        u == v,
    decreases a.len(),
{
    let x = escaped(a) + seq!['"'] + u;
    let y = escaped(b) + seq!['"'] + v;
    if a.len() > 0 {
        lemma_escaped_front(a);
        assert(x =~= escaped_char(a[0]) + (escaped(a.drop_first()) + seq!['"'] + u));
    }
    if b.len() > 0 {
        lemma_escaped_front(b);
        assert(y =~= escaped_char(b[0]) + (escaped(b.drop_first()) + seq!['"'] + v));
    }
    if a.len() == 0 && b.len() == 0 {
        assert(a =~= b);
        assert(x =~= seq!['"'] + u);
        assert(y =~= seq!['"'] + v);
        lemma_same_rest(seq!['"'], u, v);
    } else if a.len() == 0 {
        assert(x[0] == '"');
        assert(y[0] == escaped_char(b[0])[0]);
    } else if b.len() == 0 {
        assert(y[0] == '"');
        assert(x[0] == escaped_char(a[0])[0]);
    } else {
        lemma_escaped_char_cancel(
            a[0],
            escaped(a.drop_first()) + seq!['"'] + u,
            b[0],
            escaped(b.drop_first()) + seq!['"'] + v,
        );
        lemma_escaped_cancel(a.drop_first(), u, b.drop_first(), v);
        assert(a =~= seq![a[0]] + a.drop_first());
        assert(b =~= seq![b[0]] + b.drop_first());
    }
}

/// JSON strings tell texts apart, whatever follows them.
pub proof fn law_strings_tell_texts_apart(a: Seq<char>, u: Seq<char>, b: Seq<char>, v: Seq<char>)
    requires
        json_string(a) + u == json_string(b) + v,
    ensures
        a == b,
        u == v,
{
    let quote = seq!['"'];
    assert(json_string(a) + u =~= quote + (escaped(a) + quote + u));
    assert(json_string(b) + v =~= quote + (escaped(b) + quote + v));
    lemma_same_rest(quote, escaped(a) + quote + u, escaped(b) + quote + v);
    lemma_escaped_cancel(a, u, b, v);
}

/// A text of plain characters stands in a JSON string as it is.
pub proof fn law_plain_texts_stay(text: Seq<char>)
    requires
        forall|i: int|
            0 <= i < text.len() ==> #[trigger] text[i] != '"' && text[i] != '\\' && text[i] as int
                >= 32,
    ensures
        json_string(text) == seq!['"'] + text + seq!['"'],
    decreases text.len(),
{
    if text.len() > 0 {
        assert(forall|i: int| 0 <= i < text.drop_last().len() ==> text.drop_last()[i] == text[i]);
        law_plain_texts_stay(text.drop_last());
        let quote = seq!['"'];
        assert((quote + text.drop_last() + quote).len() == (quote + escaped(text.drop_last())
            + quote).len());
        assert(escaped(text.drop_last()) =~= text.drop_last()) by {
            let a = quote + escaped(text.drop_last()) + quote;
            let b = quote + text.drop_last() + quote;
            assert(a.subrange(1, a.len() - 1) =~= escaped(text.drop_last()));
            assert(b.subrange(1, b.len() - 1) =~= text.drop_last());
        }
        assert(text.last() == text[text.len() - 1]);
        assert(escaped(text) =~= text);
    }
}

/// Texts are joined one after another.
pub(crate) proof fn lemma_joined_front(items: Seq<Seq<char>>)
    requires
        items.len() > 1,
    ensures
        joined(items) == items[0] + seq![','] + joined(items.drop_first()),
    decreases items.len(),
{
    if items.len() == 2 {
        assert(items.drop_last() =~= seq![items[0]]);
        assert(items.drop_first() =~= seq![items[1]]);
        assert(joined(items.drop_last()) == items[0]);
        assert(joined(items.drop_first()) == items[1]);
        assert(items.last() == items[1]);
    } else {
        lemma_joined_front(items.drop_last());
        assert(items.drop_last().drop_first() =~= items.drop_first().drop_last());
        assert(joined(items) =~= items[0] + seq![','] + joined(items.drop_first()));
    }
}

/// Joined texts come apart at the commas between them, if each of them ends
/// where what follows it begins.
pub(crate) proof fn lemma_joined_cancel(
    a: Seq<Seq<char>>,
    u: Seq<char>,
    b: Seq<Seq<char>>,
    v: Seq<char>,
    close: char,
)
    requires
        close == ']' || close == '}',
        forall|i: int| 0 <= i < a.len() ==> (#[trigger] a[i]).len() > 0 && a[i][0] != close,
        forall|i: int| 0 <= i < b.len() ==> (#[trigger] b[i]).len() > 0 && b[i][0] != close,
        forall|i: int, x: Seq<char>, y: Seq<char>|
            #![trigger a[i] + x, b[i] + y]
            0 <= i < a.len() && i < b.len() && ends(x) && ends(y) && a[i] + x == b[i] + y ==> a[i]
                == b[i],
        joined(a) + seq![close] + u == joined(b) + seq![close] + v,
    ensures
        a == b,
        u == v,
    decreases a.len(),
{
    let p = joined(a) + seq![close] + u;
    let q = joined(b) + seq![close] + v;
    let rest_a = if a.len() > 1 {
        seq![','] + (joined(a.drop_first()) + seq![close] + u)
    } else {
        seq![close] + u
    };
    let rest_b = if b.len() > 1 {
        seq![','] + (joined(b.drop_first()) + seq![close] + v)
    } else {
        seq![close] + v
    };
    if a.len() > 1 {
        lemma_joined_front(a);
    }
    if b.len() > 1 {
        lemma_joined_front(b);
    }
    if a.len() > 0 {
        assert(p =~= a[0] + rest_a);
    } else {
        assert(p =~= seq![close] + u);
    }
    if b.len() > 0 {
        assert(q =~= b[0] + rest_b);
    } else {
        assert(q =~= seq![close] + v);
    }
    if a.len() == 0 && b.len() == 0 {
        lemma_same_rest(seq![close], u, v);
        assert(a =~= b);
    } else if a.len() == 0 {
        assert(p[0] == close && q[0] == b[0][0]);
    } else if b.len() == 0 {
        assert(q[0] == close && p[0] == a[0][0]);
    } else {
        assert(ends(rest_a) && ends(rest_b));
        assert(a[0] + rest_a == b[0] + rest_b);
        assert(a[0] == b[0]);
        lemma_same_rest(a[0], rest_a, rest_b);
        assert(rest_a[0] == rest_b[0]);
        if a.len() == 1 {
            lemma_same_rest(seq![close], u, v);
            assert(a =~= b);
        } else {
            let ra = a.drop_first();
            let rb = b.drop_first();
            lemma_same_rest(
                seq![','],
                joined(ra) + seq![close] + u,
                joined(rb) + seq![close] + v,
            );
            assert forall|i: int| 0 <= i < ra.len() implies (#[trigger] ra[i]).len() > 0
                && ra[i][0] != close by {
                assert(ra[i] == a[i + 1]);
            }
            assert forall|i: int| 0 <= i < rb.len() implies (#[trigger] rb[i]).len() > 0
                && rb[i][0] != close by {
                assert(rb[i] == b[i + 1]);
            }
            assert forall|i: int, x: Seq<char>, y: Seq<char>|
                #![trigger ra[i] + x, rb[i] + y]
                0 <= i < ra.len() && i < rb.len() && ends(x) && ends(y) && ra[i] + x == rb[i]
                    + y implies ra[i] == rb[i] by {
                assert(ra[i] == a[i + 1] && rb[i] == b[i + 1]);
                assert(a[i + 1] + x == b[i + 1] + y);
            }
            lemma_joined_cancel(ra, u, rb, v, close);
            assert(a =~= seq![a[0]] + ra);
            assert(b =~= seq![b[0]] + rb);
        }
    }
}

/// JSON arrays come apart into their items, if each item ends where what follows
/// it begins.
pub(crate) proof fn lemma_array_cancel(
    a: Seq<Seq<char>>,
    u: Seq<char>,
    b: Seq<Seq<char>>,
    v: Seq<char>,
)
    requires
        forall|i: int| 0 <= i < a.len() ==> (#[trigger] a[i]).len() > 0 && a[i][0] != ']',
        forall|i: int| 0 <= i < b.len() ==> (#[trigger] b[i]).len() > 0 && b[i][0] != ']',
        forall|i: int, x: Seq<char>, y: Seq<char>|
            #![trigger a[i] + x, b[i] + y]
            0 <= i < a.len() && i < b.len() && ends(x) && ends(y) && a[i] + x == b[i] + y ==> a[i]
                == b[i],
        json_array(a) + u == json_array(b) + v,
    ensures
        a == b,
        u == v,
{
    let open = seq!['['];
    assert(json_array(a) + u =~= open + (joined(a) + seq![']'] + u));
    assert(json_array(b) + v =~= open + (joined(b) + seq![']'] + v));
    lemma_same_rest(open, joined(a) + seq![']'] + u, joined(b) + seq![']'] + v);
    lemma_joined_cancel(a, u, b, v, ']');
}

/// JSON objects with the same keys come apart into their values, if each value
/// ends where what follows it begins.
pub(crate) proof fn lemma_object_cancel(
    a: Seq<(Seq<char>, Seq<char>)>,
    u: Seq<char>,
    b: Seq<(Seq<char>, Seq<char>)>,
    v: Seq<char>,
)
    requires
        a.len() == b.len(),
        forall|i: int| 0 <= i < a.len() ==> (#[trigger] a[i]).0 == b[i].0,
        forall|i: int, x: Seq<char>, y: Seq<char>|
            #![trigger a[i].1 + x, b[i].1 + y]
            0 <= i < a.len() && ends(x) && ends(y) && a[i].1 + x == b[i].1 + y ==> a[i].1
                == b[i].1,
        json_object(a) + u == json_object(b) + v,
    ensures
        a == b,
        u == v,
{
    let f = |member: (Seq<char>, Seq<char>)| json_member(member);
    let ma = a.map_values(f);
    let mb = b.map_values(f);
    let open = seq!['{'];
    assert(json_object(a) + u =~= open + (joined(ma) + seq!['}'] + u));
    assert(json_object(b) + v =~= open + (joined(mb) + seq!['}'] + v));
    lemma_same_rest(open, joined(ma) + seq!['}'] + u, joined(mb) + seq!['}'] + v);
    assert forall|i: int| 0 <= i < ma.len() implies (#[trigger] ma[i]).len() > 0 && ma[i][0]
        == '"' by {}
    assert forall|i: int| 0 <= i < mb.len() implies (#[trigger] mb[i]).len() > 0 && mb[i][0]
        == '"' by {}
    assert forall|i: int, x: Seq<char>, y: Seq<char>|
        #![trigger ma[i] + x, mb[i] + y]
        0 <= i < ma.len() && i < mb.len() && ends(x) && ends(y) && ma[i] + x == mb[i]
            + y implies ma[i] == mb[i] by {
        let key = json_string(a[i].0) + seq![':'];
        assert(a[i].0 == b[i].0);
        assert(ma[i] + x =~= key + (a[i].1 + x));
        assert(mb[i] + y =~= key + (b[i].1 + y));
        lemma_same_rest(key, a[i].1 + x, b[i].1 + y);
    }
    lemma_joined_cancel(ma, u, mb, v, '}');
    assert forall|i: int| 0 <= i < a.len() implies a[i] == b[i] by {
        let key = json_string(a[i].0) + seq![':'];
        assert(a[i].0 == b[i].0);
        assert(ma[i] == mb[i]);
        assert(ma[i] == key + a[i].1 && mb[i] == key + b[i].1);
        lemma_same_rest(key, a[i].1, b[i].1);
    }
    assert(a =~= b);
}

/// Numbers in decimal tell numbers apart.
pub proof fn law_decimals_tell_numbers_apart(a: int, b: int)
    requires
        signed_decimal(a) == signed_decimal(b),
    ensures
        a == b,
{
    law_signed_decimal_reads_back(a);
    law_signed_decimal_reads_back(b);
}

/// Joined texts and one more.
pub(crate) proof fn lemma_joined_push(items: Seq<Seq<char>>, item: Seq<char>)
    requires
        items.len() > 0,
    ensures
        joined(items.push(item)) == joined(items) + seq![','] + item,
{
    assert(items.push(item).drop_last() =~= items);
}

/// A JSON array: brackets round the items, in their order, with commas between.
pub proof fn law_items_are_listed_in_order(items: Seq<Seq<char>>, item: Seq<char>)
    ensures
        json_array(Seq::empty()) == seq!['[', ']'],
        items.len() == 0 ==> json_array(items.push(item)) == seq!['['] + item + seq![']'],
        items.len() > 0 ==> json_array(items.push(item)) == json_array(items).drop_last() + seq![
            ',',
        ] + item + seq![']'],
{
    assert(json_array(Seq::empty()) =~= seq!['[', ']']);
    if items.len() > 0 {
        lemma_joined_push(items, item);
        assert(json_array(items).drop_last() =~= seq!['['] + joined(items));
        assert(json_array(items.push(item)) =~= json_array(items).drop_last() + seq![','] + item
            + seq![']']);
    } else {
        assert(items.push(item) =~= seq![item]);
    }
}

/// A member of a JSON object, written out: the key in quotes, a colon and the
/// value.
pub open spec fn member(key: Seq<char>, value: Seq<char>) -> Seq<char> {
    seq!['"'] + key + seq!['"', ':'] + value
}

/// Whether a text needs no escapes.
pub open spec fn plain(text: Seq<char>) -> bool {
    forall|i: int|
        0 <= i < text.len() ==> #[trigger] text[i] != '"' && text[i] != '\\' && text[i] as int
            >= 32
}

pub(crate) proof fn lemma_member(key: Seq<char>, value: Seq<char>)
    requires
        plain(key),
    ensures
        json_member((key, value)) == member(key, value),
{
    law_plain_texts_stay(key);
    assert(json_member((key, value)) =~= member(key, value));
}

/// A list of small numbers as JSON: brackets round the numbers in decimal, in
/// their order, with commas between.
pub proof fn law_numbers_are_listed_in_order(numbers: Seq<u8>, number: u8)
    ensures
        json_numbers(Seq::empty()) == seq!['[', ']'],
        numbers.len() == 0 ==> json_numbers(numbers.push(number)) == seq!['['] + decimal(
            number as nat,
        ) + seq![']'],
        numbers.len() > 0 ==> json_numbers(numbers.push(number)) == json_numbers(
            numbers,
        ).drop_last() + seq![','] + decimal(number as nat) + seq![']'],
{
    let f = |n: u8| decimal(n as nat);
    assert(Seq::<u8>::empty().map_values(f) =~= Seq::<Seq<char>>::empty());
    assert(json_numbers(Seq::empty()) =~= seq!['[', ']']);
    let items = numbers.push(number).map_values(f);
    assert(items.drop_last() =~= numbers.map_values(f));
    if numbers.len() > 0 {
        assert(json_numbers(numbers).drop_last() =~= seq!['['] + joined(numbers.map_values(f)));
        assert(json_numbers(numbers.push(number)) =~= json_numbers(numbers).drop_last() + seq![
            ',',
        ] + decimal(number as nat) + seq![']']);
    }
}

/// Lists of small numbers tell numbers apart, whatever follows them.
pub proof fn law_lists_tell_numbers_apart(
    a: Seq<u8>,
    u: Seq<char>,
    b: Seq<u8>,
    v: Seq<char>,
)
    requires
        json_numbers(a) + u == json_numbers(b) + v,
    ensures
        a == b,
        u == v,
{
    let f = |n: u8| decimal(n as nat);
    let ta = a.map_values(f);
    let tb = b.map_values(f);
    assert forall|i: int| 0 <= i < ta.len() implies (#[trigger] ta[i]).len() > 0 && ta[i][0]
        != ']' by {
        lemma_decimal_is_bare(a[i] as nat);
        assert(bare(ta[i]));
    }
    assert forall|i: int| 0 <= i < tb.len() implies (#[trigger] tb[i]).len() > 0 && tb[i][0]
        != ']' by {
        lemma_decimal_is_bare(b[i] as nat);
        assert(bare(tb[i]));
    }
    assert forall|i: int, x: Seq<char>, y: Seq<char>|
        #![trigger ta[i] + x, tb[i] + y]
        0 <= i < ta.len() && i < tb.len() && ends(x) && ends(y) && ta[i] + x == tb[i]
            + y implies ta[i] == tb[i] by {
        lemma_decimal_is_bare(a[i] as nat);
        lemma_decimal_is_bare(b[i] as nat);
        lemma_bare_cancel(ta[i], x, tb[i], y);
    }
    lemma_array_cancel(ta, u, tb, v);
    assert forall|i: int| 0 <= i < a.len() implies a[i] == b[i] by {
        assert(ta[i] == tb[i]);
        law_decimal_reads_back(a[i] as nat);
        law_decimal_reads_back(b[i] as nat);
        assert(value_of(ta[i]) == a[i] && value_of(tb[i]) == b[i]);
    }
    assert(ta.len() == a.len() && tb.len() == b.len());
    assert(a =~= b);
}

} // verus!
