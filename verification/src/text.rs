//! Text helpers: lossy UTF-8 views of byte strings, comma-separated lists,
//! and decimal numbers.

use vstd::prelude::*;
use vstd::string::StrSliceExecFns;
use vstd::string::StringExecFns;

verus! {

/// The text that `String::from_utf8_lossy` makes of a byte string: the bytes
/// decoded as UTF-8, each malformed part replaced by U+FFFD.
pub uninterp spec fn utf8_lossy(bytes: Seq<u8>) -> Seq<char>;

/// True if `char::is_whitespace` holds of the character: it has the Unicode
/// property White_Space.
pub uninterp spec fn white_space(c: char) -> bool;

/// `String::from_utf8_lossy`, made into an owned `String`. The contract only
/// names the result: the same bytes always give the same text.
#[verifier::external_body]
pub(crate) fn from_utf8_lossy(bytes: &[u8]) -> (text: String)
    ensures
        text@ == utf8_lossy(bytes@),
{
    String::from_utf8_lossy(bytes).into_owned()
}

/// `char::is_whitespace`. The contract only names the result: whether a
/// character is white space depends on the character alone.
#[verifier::external_body]
pub(crate) fn is_whitespace(c: char) -> (space: bool)
    ensures
        space == white_space(c),
{
    c.is_whitespace()
}

/// How many characters at the start of `text` are white space.
pub open spec fn leading_space(text: Seq<char>) -> nat
    decreases text.len(),
{
    if text.len() > 0 && white_space(text.first()) {
        1 + leading_space(text.skip(1))
    } else {
        0
    }
}

/// How many characters at the end of `text` are white space.
pub open spec fn trailing_space(text: Seq<char>) -> nat
    decreases text.len(),
{
    if text.len() > 0 && white_space(text.last()) {
        1 + trailing_space(text.drop_last())
    } else {
        0
    }
}

/// The text without the white space at its start and at its end.
pub open spec fn trimmed(text: Seq<char>) -> Seq<char> {
    let rest = text.skip(leading_space(text) as int);
    rest.take(rest.len() - trailing_space(rest))
}

/// The parts of `text` between the occurrences of `separator`, first to
/// last. A text without the separator is one part, the empty text too.
pub open spec fn split(text: Seq<char>, separator: char) -> Seq<Seq<char>>
    decreases text.len(),
{
    if text.len() == 0 {
        seq![Seq::empty()]
    } else if text.last() == separator {
        split(text.drop_last(), separator).push(Seq::empty())
    } else {
        let parts = split(text.drop_last(), separator);
        parts.drop_last().push(parts.last().push(text.last()))
    }
}

/// The parts of a comma-separated list, each without the white space around
/// it.
pub open spec fn list_items(text: Seq<char>) -> Seq<Seq<char>> {
    split(text, ',').map_values(|part: Seq<char>| trimmed(part))
}

/// The decimal digits of `n`, as ASCII.
pub open spec fn decimal(n: nat) -> Seq<u8>
    decreases n,
{
    if n < 10 {
        seq![(48 + n) as u8]
    } else {
        decimal(n / 10).push((48 + n % 10) as u8)
    }
}

/// The white space at the start of a text ends at the first character that
/// is none.
proof fn lemma_leading_space(text: Seq<char>, n: nat)
    requires
        n <= text.len(),
        forall|i: int| 0 <= i < n ==> white_space(text[i]),
        n == text.len() || !white_space(text[n as int]),
    ensures
        leading_space(text) == n,
    decreases n,
{
    if n > 0 {
        let rest = text.skip(1);
        assert forall|i: int| 0 <= i < n - 1 implies white_space(rest[i]) by {}
        lemma_leading_space(rest, (n - 1) as nat);
    }
}

/// The white space at the end of a text begins behind the last character
/// that is none.
proof fn lemma_trailing_space(text: Seq<char>, n: nat)
    requires
        n <= text.len(),
        forall|i: int| text.len() - n <= i < text.len() ==> white_space(text[i]),
        n == text.len() || !white_space(text[text.len() - n - 1]),
    ensures
        trailing_space(text) == n,
    decreases n,
{
    if n > 0 {
        let rest = text.drop_last();
        assert forall|i: int| rest.len() - (n - 1) <= i < rest.len() implies white_space(
            rest[i],
        ) by {}
        lemma_trailing_space(rest, (n - 1) as nat);
    }
}

/// The text without the white space at its start and at its end.
pub fn trim(text: &str) -> (result: String)
    ensures
        result@ == trimmed(text@),
{
    let len: usize = text.unicode_len();
    let mut from: usize = 0;
    while from < len && is_whitespace(text.get_char(from))
        invariant
            from <= len,
            len == text@.len(),
            forall|i: int| 0 <= i < from ==> white_space(text@[i]),
        decreases len - from,
    {
        from += 1;
    }
    let mut to: usize = len;
    while to > from && is_whitespace(text.get_char(to - 1))
        invariant
            from <= to <= len,
            len == text@.len(),
            forall|i: int| to <= i < len ==> white_space(text@[i]),
        decreases to,
    {
        to -= 1;
    }
    proof {
        lemma_leading_space(text@, from as nat);
        let rest = text@.skip(from as int);
        assert forall|i: int| rest.len() - (len - to) <= i < rest.len() implies white_space(
            rest[i],
        ) by {}
        lemma_trailing_space(rest, (len - to) as nat);
    }
    String::from_str(text.substring_char(from, to))
}

/// The items of a comma-separated list, each without the white space around
/// it: `"gzip, br"` gives `"gzip"` and `"br"`.
pub fn split_list(text: &str) -> (items: Vec<String>)
    ensures
        items@.len() == list_items(text@).len(),
        forall|i: int| 0 <= i < items@.len() ==> (#[trigger] items@[i])@ == list_items(text@)[i],
{
    let len: usize = text.unicode_len();
    let mut items: Vec<String> = Vec::new();
    let mut start: usize = 0;
    let mut i: usize = 0;
    while i < len
        invariant
            start <= i <= len,
            len == text@.len(),
            split(text@.take(i as int), ',').len() == items@.len() + 1,
            split(text@.take(i as int), ',').last() == text@.subrange(start as int, i as int),
            forall|j: int|
                0 <= j < items@.len() ==> (#[trigger] items@[j])@ == trimmed(
                    split(text@.take(i as int), ',')[j],
                ),
        decreases len - i,
    {
        assert(text@.take(i + 1).drop_last() =~= text@.take(i as int));
        if text.get_char(i) == ',' {
            let item = trim(text.substring_char(start, i));
            items.push(item);
            start = i + 1;
        }
        i += 1;
    }
    assert(text@.take(i as int) =~= text@);
    let item = trim(text.substring_char(start, len));
    items.push(item);
    items
}

/// The decimal digits of `n`, as ASCII.
pub fn decimal_digits(n: u16) -> (digits: Vec<u8>)
    ensures
        digits@ == decimal(n as nat),
{
    let mut digits: Vec<u8> = Vec::new();
    digits.push(48 + (n % 10) as u8);
    let mut rest: u16 = n / 10;
    while rest > 0
        invariant
            rest > 0 ==> decimal(n as nat) == decimal(rest as nat) + digits@,
            rest == 0 ==> decimal(n as nat) == digits@,
        decreases rest,
    {
        digits.insert(0, 48 + (rest % 10) as u8);
        rest = rest / 10;
    }
    digits
}

} // verus!
