//! Small operations on text.

use vstd::prelude::*;

verus! {

/// Whether two texts hold the same characters.
pub fn same_text(a: &str, b: &str) -> (same: bool)
    ensures
        same == (a@ == b@),
{
    a.to_owned() == b.to_owned()
}

/// Whether `pattern` stands in `text` from position `i` on.
pub open spec fn occurs_at(text: Seq<char>, pattern: Seq<char>, i: int) -> bool {
    0 <= i && i + pattern.len() <= text.len() && text.subrange(i, i + pattern.len()) == pattern
}

/// Whether `pattern` stands in `text` anywhere.
pub open spec fn occurs(text: Seq<char>, pattern: Seq<char>) -> bool {
    exists|i: int| occurs_at(text, pattern, i)
}

/// Whether `pattern` stands in `text` at `i` for the first time.
pub open spec fn occurs_first_at(text: Seq<char>, pattern: Seq<char>, i: int) -> bool {
    &&& occurs_at(text, pattern, i)
    &&& forall|j: int| 0 <= j < i ==> !occurs_at(text, pattern, j)
}

/// A text parted at the first place where `pattern` stands: what comes before
/// it and what comes after.
pub open spec fn parted(text: Seq<char>, pattern: Seq<char>) -> Option<(Seq<char>, Seq<char>)> {
    if exists|i: int| occurs_first_at(text, pattern, i) {
        let i = choose|i: int| occurs_first_at(text, pattern, i);
        Some((text.take(i), text.skip(i + pattern.len())))
    } else {
        None
    }
}

/// A text is parted at the one place where the pattern stands first.
pub proof fn lemma_parted_at(text: Seq<char>, pattern: Seq<char>, i: int)
    requires
        occurs_first_at(text, pattern, i),
    ensures
        parted(text, pattern) == Some((text.take(i), text.skip(i + pattern.len()))),
{
    let j = choose|j: int| occurs_first_at(text, pattern, j);
    assert(i == j);
}

/// The characters of a text.
pub fn chars_of(text: &str) -> (chars: Vec<char>)
    ensures
        chars@ == text@,
{
    let mut chars: Vec<char> = Vec::new();
    for c in it: text.chars()
        invariant
            it.seq() == text@,
            chars@ == it.seq().take(it.index() as int),
    {
        chars.push(c);
    }
    chars
}

/// Whether `pattern` stands in `text` at `i`, on characters.
fn stands_at(text: &Vec<char>, pattern: &Vec<char>, i: usize) -> (stands: bool)
    requires
        i <= text@.len(),
    ensures
        stands == occurs_at(text@, pattern@, i as int),
{
    if pattern.len() > text.len() - i {
        return false;
    }
    let ghost part = text@.subrange(i as int, i + pattern@.len());
    let mut n: usize = 0;
    while n < pattern.len()
        invariant
            i + pattern@.len() <= text@.len() <= usize::MAX,
            n <= pattern@.len(),
            part == text@.subrange(i as int, i + pattern@.len()),
            forall|m: int| 0 <= m < n ==> part[m] == pattern@[m],
        decreases pattern@.len() - n,
    {
        assert(part[n as int] == text@[i + n]);
        if text[i + n] != pattern[n] {
            return false;
        }
        n += 1;
    }
    assert(part =~= pattern@);
    true
}

/// Finds the first place where `pattern` stands in `text`, in characters.
pub fn find(text: &str, pattern: &str) -> (place: Option<usize>)
    ensures
        match place {
            Some(i) => occurs_first_at(text@, pattern@, i as int),
            None => !occurs(text@, pattern@),
        },
{
    let chars = chars_of(text);
    let sought = chars_of(pattern);
    let mut i: usize = 0;
    while i < chars.len()
        invariant
            chars@ == text@,
            sought@ == pattern@,
            i <= chars@.len(),
            forall|j: int| 0 <= j < i ==> !occurs_at(text@, pattern@, j),
        decreases chars@.len() - i,
    {
        if stands_at(&chars, &sought, i) {
            return Some(i);
        }
        i += 1;
    }
    if stands_at(&chars, &sought, i) {
        Some(i)
    } else {
        None
    }
}

/// Whether `text` starts with `pattern`.
pub fn starts_with(text: &str, pattern: &str) -> (starts: bool)
    ensures
        starts == occurs_at(text@, pattern@, 0),
{
    let chars = chars_of(text);
    let sought = chars_of(pattern);
    stands_at(&chars, &sought, 0)
}

/// Parts a text at the first place where `pattern` stands.
pub fn split_once(text: &str, pattern: &str) -> (parts: Option<(String, String)>)
    ensures
        match parted(text@, pattern@) {
            Some((before, after)) => parts matches Some((b, a)) && b@ == before && a@ == after,
            None => parts is None,
        },
{
    match find(text, pattern) {
        Some(i) => {
            let end: usize = text.unicode_len();
            let skipped: usize = i + pattern.unicode_len();
            proof {
                lemma_parted_at(text@, pattern@, i as int);
                assert(text@.subrange(0, i as int) =~= text@.take(i as int));
                assert(text@.subrange(skipped as int, end as int) =~= text@.skip(skipped as int));
            }
            Some((text.substring_char(0, i).to_owned(), text.substring_char(skipped, end).to_owned()))
        },
        None => None,
    }
}

/// The character of a digit.
pub open spec fn digit(d: int) -> char {
    (48 + d) as u8 as char
}

/// A number in decimal, without leading zeros.
pub open spec fn decimal(n: nat) -> Seq<char>
    decreases n,
{
    if n < 10 {
        seq![digit(n as int)]
    } else {
        decimal(n / 10).push(digit((n % 10) as int))
    }
}

/// A signed number in decimal.
pub open spec fn signed_decimal(n: int) -> Seq<char> {
    if n < 0 {
        seq!['-'] + decimal((-n) as nat)
    } else {
        decimal(n as nat)
    }
}

/// The text of a digit.
fn digit_text(d: u64) -> (text: &'static str)
    requires
        d < 10,
    ensures
        text@ == seq![digit(d as int)],
{
    proof {
        reveal_strlit("0");
        reveal_strlit("1");
        reveal_strlit("2");
        reveal_strlit("3");
        reveal_strlit("4");
        reveal_strlit("5");
        reveal_strlit("6");
        reveal_strlit("7");
        reveal_strlit("8");
        reveal_strlit("9");
    }
    let text: &'static str = if d == 0 {
        "0"
    } else if d == 1 {
        "1"
    } else if d == 2 {
        "2"
    } else if d == 3 {
        "3"
    } else if d == 4 {
        "4"
    } else if d == 5 {
        "5"
    } else if d == 6 {
        "6"
    } else if d == 7 {
        "7"
    } else if d == 8 {
        "8"
    } else {
        "9"
    };
    assert(text@ =~= seq![digit(d as int)]);
    text
}

/// Writes a number in decimal.
pub fn decimal_text(n: u64) -> (text: String)
    ensures
        text@ == decimal(n as nat),
    decreases n,
{
    if n < 10 {
        digit_text(n).to_owned()
    } else {
        let text = decimal_text(n / 10).concat(digit_text(n % 10));
        assert(text@ =~= decimal((n / 10) as nat).push(digit((n % 10) as int)));
        text
    }
}

/// Writes a signed number in decimal.
pub fn signed_decimal_text(n: i64) -> (text: String)
    ensures
        text@ == signed_decimal(n as int),
{
    if n >= 0 {
        decimal_text(n as u64)
    } else {
        proof {
            reveal_strlit("-");
            assert("-"@ =~= seq!['-']);
        }
        let size: u64 = if n == i64::MIN {
            9223372036854775808
        } else {
            (-n) as u64
        };
        "-".to_owned().concat(decimal_text(size).as_str())
    }
}

/// The number that decimal digits stand for.
pub open spec fn value_of(digits: Seq<char>) -> int
    decreases digits.len(),
{
    if digits.len() == 0 {
        0
    } else {
        10 * value_of(digits.drop_last()) + (digits.last() as int - 48)
    }
}

/// A number in decimal reads back as the number: it is digits that stand for it,
/// with no zero in front.
pub proof fn law_decimal_reads_back(n: nat)
    ensures
        value_of(decimal(n)) == n,
        decimal(n).len() >= 1,
        forall|i: int| 0 <= i < decimal(n).len() ==> '0' <= #[trigger] decimal(n)[i] <= '9',
        decimal(n).len() > 1 ==> decimal(n)[0] != '0',
    decreases n,
{
    assert forall|d: int| 0 <= d < 10 implies '0' <= #[trigger] digit(d) <= '9' && digit(d) as int
        - 48 == d by {}
    if n < 10 {
        assert(decimal(n).drop_last() =~= Seq::<char>::empty());
        assert(digit(n as int) as int - 48 == n);
        assert(value_of(decimal(n).drop_last()) == 0);
    } else {
        law_decimal_reads_back(n / 10);
        let last = digit((n % 10) as int);
        assert(decimal(n).drop_last() =~= decimal(n / 10));
        assert(decimal(n).last() == last);
        assert(last as int - 48 == n % 10);
        assert forall|i: int| 0 <= i < decimal(n).len() implies '0' <= #[trigger] decimal(n)[i]
            <= '9' by {
            if i < decimal(n / 10).len() {
                assert(decimal(n)[i] == decimal(n / 10)[i]);
            }
        }
        assert(decimal(n)[0] == decimal(n / 10)[0]);
        if decimal(n / 10).len() == 1 {
            assert(value_of(decimal(n / 10)) == decimal(n / 10)[0] as int - 48) by {
                assert(decimal(n / 10).drop_last() =~= Seq::<char>::empty());
                assert(value_of(decimal(n / 10).drop_last()) == 0);
            }
        }
    }
}

/// A signed number in decimal reads back as the number, with a minus sign just
/// where it is negative.
pub proof fn law_signed_decimal_reads_back(n: int)
    ensures
        n >= 0 ==> value_of(signed_decimal(n)) == n && signed_decimal(n)[0] != '-',
        n < 0 ==> signed_decimal(n)[0] == '-' && value_of(signed_decimal(n).skip(1)) == -n,
{
    if n < 0 {
        law_decimal_reads_back((-n) as nat);
        assert(signed_decimal(n).skip(1) =~= decimal((-n) as nat));
    } else {
        law_decimal_reads_back(n as nat);
        assert('0' <= decimal(n as nat)[0] <= '9');
    }
}

/// Where a pattern stands, there is a first place where it stands.
proof fn lemma_first_place(text: Seq<char>, pattern: Seq<char>, i: int)
    requires
        occurs_at(text, pattern, i),
    ensures
        exists|j: int| j <= i && occurs_first_at(text, pattern, j),
    decreases i,
{
    if exists|j: int| 0 <= j < i && occurs_at(text, pattern, j) {
        let j = choose|j: int| 0 <= j < i && occurs_at(text, pattern, j);
        lemma_first_place(text, pattern, j);
    } else {
        assert(occurs_first_at(text, pattern, i));
    }
}

/// The parts of a text give the text back with the pattern between them, and no
/// other way to part it has a shorter first part. A text that is not parted
/// cannot be parted.
pub proof fn law_parts_give_back_the_text(
    text: Seq<char>,
    pattern: Seq<char>,
    before: Seq<char>,
    after: Seq<char>,
)
    ensures
        parted(text, pattern) matches Some((a, b)) ==> text == a + pattern + b,
        text == before + pattern + after ==> (parted(text, pattern) matches Some((a, _)) && a.len()
            <= before.len()),
{
    if parted(text, pattern) is Some {
        let i = choose|i: int| occurs_first_at(text, pattern, i);
        assert(text.subrange(i, i + pattern.len()) == pattern);
        assert(text =~= text.take(i) + text.subrange(i, i + pattern.len()) + text.skip(
            i + pattern.len(),
        ));
    }
    if text == before + pattern + after {
        let i = before.len() as int;
        assert(text.subrange(i, i + pattern.len()) =~= pattern);
        lemma_first_place(text, pattern, i);
        let j = choose|j: int| j <= i && occurs_first_at(text, pattern, j);
        lemma_parted_at(text, pattern, j);
    }
}

} // verus!
