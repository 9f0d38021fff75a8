//! The text of a record: one session as it stands in its file.
//!
//! ```text
//! description: "Write report"
//! duration:
//!   secs: 1500
//!   nanos: 0
//! start: 2024-01-10 09:30:00
//! ```
//!
//! The description stands between double quotes, with `\\`, `\"`, `\n`, `\r`
//! and `\t` for the characters that would break the line. The duration is a
//! whole number of seconds; the line for the nanoseconds may be missing. The
//! start is written as `YYYY-MM-DD HH:MM:SS`. Every line ends in a newline,
//! the last one too.

use crate::text::{
    after_prefix, decimal, escaped, is_digit, leading_number, lemma_after_prefix,
    lemma_leading_number_of_decimal, lemma_unescaped_of_escaped, push_decimal, push_escaped,
    read_number, read_quoted, skip_text, unescaped,
};
use vstd::prelude::*;
use vstd::string::StringExecFns;

verus! {

/// What the lines of a record hold, the start still as text.
pub struct RecordFields {
    pub description: Seq<char>,
    pub duration: u64,
    pub start: Seq<char>,
}

/// What the lines of a record hold, as they were read.
pub struct RawRecord {
    pub description: String,
    pub duration: u64,
    pub start: String,
}

impl View for RawRecord {
    type V = RecordFields;

    open spec fn view(&self) -> RecordFields {
        RecordFields { description: self.description@, duration: self.duration, start: self.start@ }
    }
}

/// The text of the record with these fields.
pub open spec fn record_text(fields: RecordFields) -> Seq<char> {
    "description: \""@ + escaped(fields.description) + "\"\nduration:\n  secs: "@ + decimal(
        fields.duration as nat,
    ) + "\n  nanos: 0\nstart: "@ + fields.start + "\n"@
}

/// What follows the line for the nanoseconds, or the text itself where that
/// line is missing. The line holds a number below 1 000 000 000, which is
/// read and dropped: a session lasts a whole number of seconds.
pub open spec fn after_nanos(text: Seq<char>) -> Option<Seq<char>> {
    match after_prefix(text, "  nanos: "@) {
        None => Some(text),
        Some(rest) => match leading_number(rest) {
            Some((nanos, behind)) => if nanos < 1_000_000_000 {
                after_prefix(behind, "\n"@)
            } else {
                None
            },
            None => None,
        },
    }
}

/// The value of the last line: what stands between `start: ` and the
/// newline that ends the text.
pub open spec fn start_value(text: Seq<char>) -> Option<Seq<char>> {
    match after_prefix(text, "start: "@) {
        Some(rest) => if rest.len() > 0 && rest.last() == '\n' {
            Some(rest.drop_last())
        } else {
            None
        },
        None => None,
    }
}

/// The start of a record, read from behind the number of its seconds: the
/// end of that line, the line for the nanoseconds if there is one, and the
/// last line.
pub open spec fn start_behind_seconds(text: Seq<char>) -> Option<Seq<char>> {
    match after_prefix(text, "\n"@) {
        None => None,
        Some(lines) => match after_nanos(lines) {
            None => None,
            Some(last) => start_value(last),
        },
    }
}

/// The fields that a text spells out, if it has the layout of a record.
pub open spec fn record_fields(text: Seq<char>) -> Option<RecordFields> {
    match after_prefix(text, "description: \""@) {
        None => None,
        Some(t1) => match unescaped(t1) {
            None => None,
            Some((description, t2)) => match after_prefix(t2, "\nduration:\n  secs: "@) {
                None => None,
                Some(t3) => match leading_number(t3) {
                    None => None,
                    Some((duration, t4)) => match start_behind_seconds(t4) {
                        None => None,
                        Some(start) => Some(RecordFields { description, duration, start }),
                    },
                },
            },
        },
    }
}

/// Writes the record with the given fields.
pub fn write_record(description: &str, duration: u64, start: &str) -> (text: String)
    ensures
        text@ == record_text(
            RecordFields { description: description@, duration, start: start@ },
        ),
{
    let mut text = String::from_str("description: \"");
    push_escaped(&mut text, description);
    text.append("\"\nduration:\n  secs: ");
    push_decimal(&mut text, duration);
    text.append("\n  nanos: 0\nstart: ");
    text.append(start);
    text.append("\n");
    text
}

fn skip_nanos(chars: &Vec<char>, pos: usize) -> (next: Option<usize>)
    requires
        pos <= chars.len(),
    ensures
        match after_nanos(chars@.skip(pos as int)) {
            Some(rest) => next matches Some(n) && pos <= n <= chars.len() && chars@.skip(n as int)
                == rest,
            None => next is None,
        },
{
    match skip_text(chars, pos, "  nanos: ") {
        None => Some(pos),
        Some(at) => match read_number(chars, at) {
            Some((nanos, behind)) => if nanos < 1_000_000_000 {
                skip_text(chars, behind, "\n")
            } else {
                None
            },
            None => None,
        },
    }
}

fn read_start(chars: &Vec<char>, pos: usize) -> (found: Option<String>)
    requires
        pos <= chars.len(),
    ensures
        match start_value(chars@.skip(pos as int)) {
            Some(value) => found matches Some(text) && text@ == value,
            None => found is None,
        },
{
    let from = match skip_text(chars, pos, "start: ") {
        Some(at) => at,
        None => {
            return None;
        },
    };
    let ghost rest = chars@.skip(from as int);
    if from == chars.len() || chars[chars.len() - 1] != '\n' {
        assert(rest.len() > 0 ==> rest.last() == chars@[chars.len() - 1]);
        return None;
    }
    assert(rest.last() == chars@[chars.len() - 1]);
    let until = chars.len() - 1;
    let mut value = String::new();
    let mut i: usize = from;
    while i < until
        invariant
            from <= i <= until,
            until == chars.len() - 1,
            value@ == chars@.subrange(from as int, i as int),
        decreases until - i,
    {
        value.push(chars[i]);
        assert(chars@.subrange(from as int, i + 1) =~= chars@.subrange(from as int, i as int).push(
            chars@[i as int],
        ));
        i = i + 1;
    }
    assert(chars@.subrange(from as int, until as int) =~= rest.drop_last());
    Some(value)
}

/// Reads the fields of a record; `None` where the text does not have the
/// layout of one.
pub fn read_record(text: &str) -> (found: Option<RawRecord>)
    ensures
        match record_fields(text@) {
            Some(fields) => found matches Some(raw) && raw@ == fields,
            None => found is None,
        },
{
    let chars = crate::text::chars_of(text);
    assert(chars@.skip(0) =~= text@);
    let opened = match skip_text(&chars, 0, "description: \"") {
        Some(next) => next,
        None => {
            return None;
        },
    };
    let (description, closed) = match read_quoted(&chars, opened) {
        Some(found) => found,
        None => {
            return None;
        },
    };
    let at_seconds = match skip_text(&chars, closed, "\nduration:\n  secs: ") {
        Some(next) => next,
        None => {
            return None;
        },
    };
    let (duration, behind_seconds) = match read_number(&chars, at_seconds) {
        Some(found) => found,
        None => {
            return None;
        },
    };
    let next_line = match skip_text(&chars, behind_seconds, "\n") {
        Some(next) => next,
        None => {
            return None;
        },
    };
    let last_line = match skip_nanos(&chars, next_line) {
        Some(next) => next,
        None => {
            return None;
        },
    };
    match read_start(&chars, last_line) {
        Some(start) => Some(RawRecord { description, duration, start }),
        None => None,
    }
}

/// The lines behind the seconds, as `record_text` writes them, give the
/// start back.
proof fn lemma_start_behind_seconds(start: Seq<char>)
    ensures
        ("\n  nanos: 0\nstart: "@ + start + "\n"@).len() > 0,
        !is_digit(("\n  nanos: 0\nstart: "@ + start + "\n"@)[0]),
        start_behind_seconds("\n  nanos: 0\nstart: "@ + start + "\n"@) == Some(start),
{
    reveal_strlit("\n  nanos: 0\nstart: ");
    reveal_strlit("\n");
    reveal_strlit("  nanos: ");
    reveal_strlit("start: ");
    let newline = "\n"@;
    let key = "  nanos: "@;
    let text = "\n  nanos: 0\nstart: "@ + start + newline;
    assert(text[0] == '\n');
    let last_line = "start: "@ + start + newline;
    let behind = newline + last_line;
    let number = decimal(0) + behind;
    let lines = key + number;
    assert(decimal(0) =~= seq!['0']);
    assert(text =~= newline + lines);
    lemma_after_prefix(newline, lines);
    lemma_after_prefix(key, number);
    assert(behind[0] == '\n');
    lemma_leading_number_of_decimal(0, behind);
    lemma_after_prefix(newline, last_line);
    assert(after_nanos(lines) == Some(last_line));
    let value = start + newline;
    assert(last_line =~= "start: "@ + value);
    lemma_after_prefix("start: "@, value);
    assert(value.last() == '\n');
    assert(value.drop_last() =~= start);
}

/// A record is read back with the fields it was written from, whatever the
/// description and the start hold.
pub proof fn lemma_record_fields_of_text(fields: RecordFields)
    ensures
        record_fields(record_text(fields)) == Some(fields),
{
    let head = "description: \""@;
    let middle = "\"\nduration:\n  secs: "@;
    let secs_line = "\nduration:\n  secs: "@;
    let numeral = decimal(fields.duration as nat);
    let quoted = escaped(fields.description);
    let t4 = "\n  nanos: 0\nstart: "@ + fields.start + "\n"@;
    let t3 = numeral + t4;
    let t2 = secs_line + t3;
    let t1 = quoted + seq!['"'] + t2;
    assert(middle =~= seq!['"'] + secs_line) by {
        reveal_strlit("\"\nduration:\n  secs: ");
        reveal_strlit("\nduration:\n  secs: ");
    }
    assert(record_text(fields) =~= head + t1);
    lemma_after_prefix(head, t1);
    lemma_unescaped_of_escaped(fields.description, t2);
    lemma_after_prefix(secs_line, t3);
    lemma_start_behind_seconds(fields.start);
    lemma_leading_number_of_decimal(fields.duration, t4);
}

} // verus!
