//! Characters, decimal numbers and quoted text: the pieces that record text
//! and status lines are made of, each with the function that reads it back.

use vstd::prelude::*;

verus! {

/// `String::push` appends one character to the end of the string.
pub assume_specification[ String::push ](text: &mut String, c: char)
    ensures
        final(text)@ == old(text)@.push(c),
;

/// The characters of a string, in order.
pub fn chars_of(text: &str) -> (chars: Vec<char>)
    ensures
        chars@ == text@,
{
    let mut chars: Vec<char> = Vec::new();
    for c in it: text.chars()
        invariant
            chars@ == it.seq().take(it.index() as int),
    {
        chars.push(c);
    }
    chars
}

// ---------------------------------------------------------------------------
// Decimal digits
// ---------------------------------------------------------------------------

pub open spec fn is_digit(c: char) -> bool {
    '0' <= c && c <= '9'
}

/// The number that a decimal digit stands for.
pub open spec fn digit_value(c: char) -> int {
    c as u32 - '0' as u32
}

/// The decimal digit for a number below ten.
pub open spec fn digit_char(d: int) -> char {
    (d + 48) as u8 as char
}

pub fn digit_of(d: u8) -> (c: char)
    requires
        d < 10,
    ensures
        c == digit_char(d as int),
{
    (d + 48) as char
}

pub fn value_of(c: char) -> (d: Option<u8>)
    ensures
        d is Some <==> is_digit(c),
        d matches Some(v) ==> v == digit_value(c) && v < 10,
{
    if '0' <= c && c <= '9' {
        Some((c as u32 - '0' as u32) as u8)
    } else {
        None
    }
}

pub proof fn lemma_digit_char(d: int)
    requires
        0 <= d < 10,
    ensures
        is_digit(digit_char(d)),
        digit_value(digit_char(d)) == d,
{
}

/// The decimal numeral of a number, without leading zeros.
pub open spec fn decimal(n: nat) -> Seq<char>
    decreases n,
{
    if n < 10 {
        seq![digit_char(n as int)]
    } else {
        decimal(n / 10).push(digit_char((n % 10) as int))
    }
}

/// The number that a run of decimal digits stands for.
pub open spec fn decimal_value(digits: Seq<char>) -> nat
    decreases digits.len(),
{
    if digits.len() == 0 {
        0
    } else {
        (decimal_value(digits.drop_last()) * 10 + digit_value(digits.last())) as nat
    }
}

pub open spec fn all_digits(text: Seq<char>) -> bool {
    forall|i: int| 0 <= i < text.len() ==> is_digit(#[trigger] text[i])
}

/// How many decimal digits stand at the front of a text.
pub open spec fn digit_run(text: Seq<char>) -> nat
    decreases text.len(),
{
    if text.len() > 0 && is_digit(text[0]) {
        1 + digit_run(text.skip(1))
    } else {
        0
    }
}

/// The number at the front of a text, with what follows it: the longest run
/// of digits, which must not be empty and must stand for a `u64`.
pub open spec fn leading_number(text: Seq<char>) -> Option<(u64, Seq<char>)> {
    let run = digit_run(text);
    let value = decimal_value(text.take(run as int));
    if run > 0 && value <= u64::MAX {
        Some((value as u64, text.skip(run as int)))
    } else {
        None
    }
}

/// Appends the decimal numeral of `n`.
pub fn push_wide_decimal(out: &mut String, n: u128)
    ensures
        final(out)@ == old(out)@ + decimal(n as nat),
    decreases n,
{
    if n >= 10 {
        push_wide_decimal(out, n / 10);
    }
    out.push(digit_of((n % 10) as u8));
}

/// Appends the decimal numeral of `n`.
pub fn push_decimal(out: &mut String, n: u64)
    ensures
        final(out)@ == old(out)@ + decimal(n as nat),
{
    push_wide_decimal(out, n as u128)
}

pub proof fn lemma_digit_run_bound(text: Seq<char>)
    ensures
        digit_run(text) <= text.len(),
        all_digits(text.take(digit_run(text) as int)),
        digit_run(text) < text.len() ==> !is_digit(text[digit_run(text) as int]),
    decreases text.len(),
{
    if text.len() > 0 && is_digit(text[0]) {
        let rest = text.skip(1);
        lemma_digit_run_bound(rest);
        let run = digit_run(text) as int;
        assert forall|i: int| 0 <= i < run implies is_digit(#[trigger] text.take(run)[i]) by {
            if i > 0 {
                assert(text.take(run)[i] == rest.take(run - 1)[i - 1]);
            }
        }
    }
}

/// A run of digits in front of something that is no digit is read whole.
pub proof fn lemma_digit_run_of_digits(digits: Seq<char>, rest: Seq<char>)
    requires
        all_digits(digits),
        rest.len() == 0 || !is_digit(rest[0]),
    ensures
        digit_run(digits + rest) == digits.len(),
    decreases digits.len(),
{
    let text = digits + rest;
    if digits.len() == 0 {
        assert(text =~= rest);
    } else {
        assert(text[0] == digits[0]);
        assert(text.skip(1) =~= digits.skip(1) + rest);
        assert forall|i: int| 0 <= i < digits.skip(1).len() implies is_digit(
            #[trigger] digits.skip(1)[i],
        ) by {
            assert(digits.skip(1)[i] == digits[i + 1]);
        }
        lemma_digit_run_of_digits(digits.skip(1), rest);
    }
}

/// A numeral is made of digits and stands for its number.
pub proof fn lemma_decimal_value(n: nat)
    ensures
        decimal(n).len() > 0,
        all_digits(decimal(n)),
        decimal_value(decimal(n)) == n,
    decreases n,
{
    if n < 10 {
        lemma_digit_char(n as int);
        let text = decimal(n);
        assert(text.drop_last() =~= Seq::<char>::empty());
        assert(decimal_value(text.drop_last()) == 0);
    } else {
        lemma_decimal_value(n / 10);
        lemma_digit_char((n % 10) as int);
        let text = decimal(n);
        assert(text.drop_last() =~= decimal(n / 10));
        assert(text.last() == digit_char((n % 10) as int));
    }
}

/// The numeral of `n` in front of something that is no digit reads back as `n`.
pub proof fn lemma_leading_number_of_decimal(n: u64, rest: Seq<char>)
    requires
        rest.len() == 0 || !is_digit(rest[0]),
    ensures
        leading_number(decimal(n as nat) + rest) == Some((n, rest)),
{
    let numeral = decimal(n as nat);
    lemma_decimal_value(n as nat);
    lemma_digit_run_of_digits(numeral, rest);
    let text = numeral + rest;
    assert(text.take(numeral.len() as int) =~= numeral);
    assert(text.skip(numeral.len() as int) =~= rest);
}

/// A longer run of digits stands for no smaller number.
pub proof fn lemma_decimal_value_grows(digits: Seq<char>, k: int)
    requires
        all_digits(digits),
        0 <= k <= digits.len(),
    ensures
        decimal_value(digits.take(k)) <= decimal_value(digits),
    decreases digits.len() - k,
{
    if k == digits.len() {
        assert(digits.take(k) =~= digits);
    } else {
        lemma_decimal_value_grows(digits, k + 1);
        let longer = digits.take(k + 1);
        assert(longer.drop_last() =~= digits.take(k));
        assert(longer.last() == digits[k]);
        assert(is_digit(digits[k]));
    }
}

/// Reads the number that stands at `pos`; the second part of the result is
/// the position behind it.
pub fn read_number(chars: &Vec<char>, pos: usize) -> (found: Option<(u64, usize)>)
    requires
        pos <= chars.len(),
    ensures
        match leading_number(chars@.skip(pos as int)) {
            Some((value, rest)) => found matches Some((v, next)) && v == value && pos < next
                <= chars.len() && chars@.skip(next as int) == rest,
            None => found is None,
        },
{
    let ghost text = chars@.skip(pos as int);
    let mut at: usize = pos;
    let mut value: u64 = 0;
    let mut fits = true;
    proof {
        lemma_digit_run_bound(text);
        assert(text.take(0) =~= Seq::<char>::empty());
    }
    while at < chars.len()
        invariant
            pos <= at <= chars.len(),
            text == chars@.skip(pos as int),
            at - pos <= digit_run(text) <= text.len(),
            all_digits(text.take(digit_run(text) as int)),
            digit_run(text) < text.len() ==> !is_digit(text[digit_run(text) as int]),
            fits ==> value == decimal_value(text.take(at - pos)),
            !fits ==> decimal_value(text.take(digit_run(text) as int)) > u64::MAX,
        ensures
            at - pos == digit_run(text),
        decreases chars.len() - at,
    {
        let digit = match value_of(chars[at]) {
            Some(d) => d,
            None => {
                proof {
                    let run = digit_run(text) as int;
                    assert(text[at - pos] == chars@[at as int]);
                    if at - pos < run {
                        assert(text.take(run)[at - pos] == text[at - pos]);
                    }
                }
                break ;
            },
        };
        proof {
            let run = digit_run(text) as int;
            assert(text[at - pos] == chars@[at as int]);
            assert(at - pos < run);
            let longer = text.take(at - pos + 1);
            assert(longer.drop_last() =~= text.take(at - pos));
            assert(longer.last() == text[at - pos]);
            assert(text.take(run).take(at - pos + 1) =~= longer);
            lemma_decimal_value_grows(text.take(run), at - pos + 1);
        }
        if fits {
            let next = match value.checked_mul(10) {
                Some(tenfold) => tenfold.checked_add(digit as u64),
                None => None,
            };
            match next {
                Some(n) => {
                    value = n;
                },
                None => {
                    fits = false;
                },
            }
        }
        at = at + 1;
    }
    proof {
        assert(chars@.skip(at as int) =~= text.skip(at - pos));
    }
    if at > pos && fits {
        Some((value, at))
    } else {
        None
    }
}

// ---------------------------------------------------------------------------
// Fixed text
// ---------------------------------------------------------------------------

/// What follows `prefix` in `text`, if `text` begins with it.
pub open spec fn after_prefix(text: Seq<char>, prefix: Seq<char>) -> Option<Seq<char>> {
    if prefix.is_prefix_of(text) {
        Some(text.skip(prefix.len() as int))
    } else {
        None
    }
}

pub proof fn lemma_after_prefix(prefix: Seq<char>, rest: Seq<char>)
    ensures
        after_prefix(prefix + rest, prefix) == Some(rest),
{
    let text = prefix + rest;
    assert(text.subrange(0, prefix.len() as int) =~= prefix);
    assert(text.skip(prefix.len() as int) =~= rest);
}

/// Tells whether `expected` stands at `pos`, and gives the position behind it.
pub fn skip_text(chars: &Vec<char>, pos: usize, expected: &str) -> (next: Option<usize>)
    requires
        pos <= chars.len(),
    ensures
        match after_prefix(chars@.skip(pos as int), expected@) {
            Some(rest) => next matches Some(n) && n == pos + expected@.len() && n <= chars.len()
                && chars@.skip(n as int) == rest,
            None => next is None,
        },
{
    let wanted = chars_of(expected);
    let ghost text = chars@.skip(pos as int);
    if wanted.len() > chars.len() - pos {
        return None;
    }
    let mut i: usize = 0;
    while i < wanted.len()
        invariant
            i <= wanted.len() <= chars.len() - pos,
            wanted@ == expected@,
            text == chars@.skip(pos as int),
            forall|j: int| 0 <= j < i ==> text[j] == wanted@[j],
        decreases wanted.len() - i,
    {
        if chars[pos + i] != wanted[i] {
            proof {
                assert(text[i as int] == chars@[pos + i]);
                if wanted@.is_prefix_of(text) {
                    assert(text.subrange(0, wanted@.len() as int)[i as int] == wanted@[i as int]);
                }
            }
            return None;
        }
        proof {
            assert(text[i as int] == chars@[pos + i]);
        }
        i = i + 1;
    }
    proof {
        assert(text.subrange(0, wanted@.len() as int) =~= wanted@);
        assert(chars@.skip((pos + wanted.len()) as int) =~= text.skip(wanted@.len() as int));
    }
    Some(pos + wanted.len())
}

// ---------------------------------------------------------------------------
// Quoted text
// ---------------------------------------------------------------------------

/// How one character is written between double quotes.
pub open spec fn escape_of(c: char) -> Seq<char> {
    if c == '\\' {
        seq!['\\', '\\']
    } else if c == '"' {
        seq!['\\', '"']
    } else if c == '\n' {
        seq!['\\', 'n']
    } else if c == '\r' {
        seq!['\\', 'r']
    } else if c == '\t' {
        seq!['\\', 't']
    } else {
        seq![c]
    }
}

/// The character that stands for the one written behind a backslash.
pub open spec fn escape_meaning(c: char) -> Option<char> {
    if c == '\\' {
        Some('\\')
    } else if c == '"' {
        Some('"')
    } else if c == 'n' {
        Some('\n')
    } else if c == 'r' {
        Some('\r')
    } else if c == 't' {
        Some('\t')
    } else {
        None
    }
}

/// A text as it is written between double quotes.
pub open spec fn escaped(text: Seq<char>) -> Seq<char>
    decreases text.len(),
{
    if text.len() == 0 {
        Seq::empty()
    } else {
        escape_of(text[0]) + escaped(text.skip(1))
    }
}

/// Reads quoted text from behind its opening quote: the text it stands for,
/// and what follows the closing quote.
pub open spec fn unescaped(text: Seq<char>) -> Option<(Seq<char>, Seq<char>)>
    decreases text.len(),
{
    if text.len() == 0 {
        None
    } else if text[0] == '"' {
        Some((Seq::empty(), text.skip(1)))
    } else if text[0] == '\\' {
        if text.len() < 2 {
            None
        } else {
            match (escape_meaning(text[1]), unescaped(text.skip(2))) {
                (Some(c), Some((content, rest))) => Some((seq![c] + content, rest)),
                _ => None,
            }
        }
    } else {
        match unescaped(text.skip(1)) {
            Some((content, rest)) => Some((seq![text[0]] + content, rest)),
            None => None,
        }
    }
}

/// Appends `text` as it is written between double quotes.
pub fn push_escaped(out: &mut String, text: &str)
    ensures
        final(out)@ == old(out)@ + escaped(text@),
{
    let chars = chars_of(text);
    let mut i: usize = 0;
    proof {
        assert(chars@.skip(0) =~= text@);
    }
    while i < chars.len()
        invariant
            i <= chars.len(),
            chars@ == text@,
            out@ + escaped(chars@.skip(i as int)) == old(out)@ + escaped(text@),
        decreases chars.len() - i,
    {
        let c = chars[i];
        proof {
            let rest = chars@.skip(i as int);
            assert(rest[0] == c);
            assert(rest.skip(1) =~= chars@.skip(i + 1));
        }
        let ghost before = out@;
        if c == '\\' {
            out.push('\\');
            out.push('\\');
        } else if c == '"' {
            out.push('\\');
            out.push('"');
        } else if c == '\n' {
            out.push('\\');
            out.push('n');
        } else if c == '\r' {
            out.push('\\');
            out.push('r');
        } else if c == '\t' {
            out.push('\\');
            out.push('t');
        } else {
            out.push(c);
        }
        proof {
            assert(out@ =~= before + escape_of(c));
            assert(out@ + escaped(chars@.skip(i + 1)) =~= before + escaped(chars@.skip(i as int)));
        }
        i = i + 1;
    }
    proof {
        assert(escaped(chars@.skip(i as int)) =~= Seq::<char>::empty());
        assert(out@ + Seq::<char>::empty() =~= out@);
    }
}

/// Reads the quoted text whose opening quote stands just before `pos`; the
/// second part of the result is the position behind the closing quote.
pub fn read_quoted(chars: &Vec<char>, pos: usize) -> (found: Option<(String, usize)>)
    requires
        pos <= chars.len(),
    ensures
        match unescaped(chars@.skip(pos as int)) {
            Some((content, rest)) => found matches Some((text, next)) && text@ == content && pos
                < next <= chars.len() && chars@.skip(next as int) == rest,
            None => found is None,
        },
{
    let ghost whole = unescaped(chars@.skip(pos as int));
    let mut content = String::new();
    let mut at: usize = pos;
    while at < chars.len()
        invariant
            pos <= at <= chars.len(),
            whole == unescaped(chars@.skip(pos as int)),
            whole == match unescaped(chars@.skip(at as int)) {
                Some((more, rest)) => Some((content@ + more, rest)),
                None => None,
            },
        decreases chars.len() - at,
    {
        let c = chars[at];
        let ghost here = chars@.skip(at as int);
        proof {
            assert(here[0] == c);
            assert(here.skip(1) =~= chars@.skip(at + 1));
        }
        if c == '"' {
            proof {
                assert(content@ + Seq::<char>::empty() =~= content@);
            }
            return Some((content, at + 1));
        }
        let ghost before = content@;
        if c == '\\' {
            if at + 1 >= chars.len() {
                return None;
            }
            let d = chars[at + 1];
            proof {
                assert(here[1] == d);
                assert(here.skip(2) =~= chars@.skip(at + 2));
            }
            if d == '\\' {
                content.push('\\');
            } else if d == '"' {
                content.push('"');
            } else if d == 'n' {
                content.push('\n');
            } else if d == 'r' {
                content.push('\r');
            } else if d == 't' {
                content.push('\t');
            } else {
                return None;
            }
            proof {
                if let Some((more, _)) = unescaped(chars@.skip(at + 2)) {
                    assert(content@ + more =~= before + (seq![escape_meaning(d)->0] + more));
                }
            }
            at = at + 2;
        } else {
            content.push(c);
            proof {
                if let Some((more, _)) = unescaped(chars@.skip(at + 1)) {
                    assert(content@ + more =~= before + (seq![c] + more));
                }
            }
            at = at + 1;
        }
    }
    None
}

/// Quoted text, closed by its quote, reads back as the text it was made from.
pub proof fn lemma_unescaped_of_escaped(text: Seq<char>, rest: Seq<char>)
    ensures
        unescaped(escaped(text) + seq!['"'] + rest) == Some((text, rest)),
    decreases text.len(),
{
    let written = escaped(text) + seq!['"'] + rest;
    if text.len() == 0 {
        assert(written[0] == '"');
        assert(written.skip(1) =~= rest);
    } else {
        let c = text[0];
        let tail = escaped(text.skip(1)) + seq!['"'] + rest;
        lemma_unescaped_of_escaped(text.skip(1), rest);
        assert(written =~= escape_of(c) + tail);
        assert(seq![c] + text.skip(1) =~= text);
        if c == '\\' || c == '"' || c == '\n' || c == '\r' || c == '\t' {
            assert(written[0] == '\\');
            assert(written[1] == escape_of(c)[1]);
            assert(escape_meaning(written[1]) == Some(c));
            assert(written.skip(2) =~= tail);
        } else {
            assert(written[0] == c);
            assert(written.skip(1) =~= tail);
        }
    }
}

// ---------------------------------------------------------------------------
// Searching
// ---------------------------------------------------------------------------

/// Tells whether `needle` stands in `hay` at position `at`.
pub open spec fn occurs_at(hay: Seq<char>, needle: Seq<char>, at: int) -> bool {
    0 <= at && at + needle.len() <= hay.len() && hay.subrange(at, at + needle.len()) == needle
}

/// Tells whether `needle` stands somewhere in `hay`.
pub open spec fn is_infix(needle: Seq<char>, hay: Seq<char>) -> bool {
    exists|at: int| occurs_at(hay, needle, at)
}

fn matches_at(hay: &Vec<char>, needle: &Vec<char>, at: usize) -> (found: bool)
    requires
        at + needle.len() <= hay.len(),
    ensures
        found == occurs_at(hay@, needle@, at as int),
{
    let ghost window = hay@.subrange(at as int, at + needle.len());
    let mut i: usize = 0;
    while i < needle.len()
        invariant
            i <= needle.len(),
            at + needle.len() <= hay.len(),
            window == hay@.subrange(at as int, at + needle.len()),
            forall|j: int| 0 <= j < i ==> window[j] == needle@[j],
        decreases needle.len() - i,
    {
        if hay[at + i] != needle[i] {
            assert(window[i as int] != needle@[i as int]);
            return false;
        }
        assert(window[i as int] == needle@[i as int]);
        i = i + 1;
    }
    assert(window =~= needle@);
    true
}

/// Tells whether `needle` stands somewhere in `hay`.
pub fn contains_chars(hay: &Vec<char>, needle: &Vec<char>) -> (found: bool)
    ensures
        found == is_infix(needle@, hay@),
{
    if needle.len() > hay.len() {
        return false;
    }
    let last = hay.len() - needle.len();
    let mut at: usize = 0;
    while at < last
        invariant
            at <= last,
            last == hay.len() - needle.len(),
            forall|k: int| 0 <= k < at ==> !occurs_at(hay@, needle@, k),
        decreases last - at,
    {
        if matches_at(hay, needle, at) {
            return true;
        }
        at = at + 1;
    }
    matches_at(hay, needle, last)
}

} // verus!
