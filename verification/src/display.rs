//! Sessions as rows: the cells of the table that is shown on the screen,
//! and the plain table that is handed to other programs.

use crate::date_time::{human_readable, serialize_human_readable};
use crate::service::views;
use crate::session::{duration_in_minutes, Session, SessionView};
use crate::text::{chars_of, decimal, push_decimal, push_wide_decimal};
use vstd::prelude::*;
use vstd::string::StringExecFns;

verus! {

// ---------------------------------------------------------------------------
// Order
// ---------------------------------------------------------------------------

/// `sorted` with `session` put behind the last session that does not begin
/// later than it.
pub open spec fn placed(sorted: Seq<SessionView>, session: SessionView) -> Seq<SessionView>
    decreases sorted.len(),
{
    if sorted.len() == 0 {
        seq![session]
    } else if sorted.last().start.instant() <= session.start.instant() {
        sorted.push(session)
    } else {
        placed(sorted.drop_last(), session).push(sorted.last())
    }
}

/// The sessions by their start, earliest first; sessions with the same
/// start keep the order they came in.
pub open spec fn in_start_order(sessions: Seq<SessionView>) -> Seq<SessionView>
    decreases sessions.len(),
{
    if sessions.len() == 0 {
        Seq::empty()
    } else {
        placed(in_start_order(sessions.drop_last()), sessions.last())
    }
}

/// No session begins before one that stands in front of it.
pub open spec fn ordered(sessions: Seq<SessionView>) -> bool {
    forall|i: int, j: int|
        0 <= i <= j < sessions.len() ==> (#[trigger] sessions[i]).start.instant() <= (
        #[trigger] sessions[j]).start.instant()
}

proof fn lemma_placed_at(sorted: Seq<SessionView>, session: SessionView, at: int)
    requires
        0 <= at <= sorted.len(),
        forall|k: int|
            at <= k < sorted.len() ==> (#[trigger] sorted[k]).start.instant()
                > session.start.instant(),
        at > 0 ==> sorted[at - 1].start.instant() <= session.start.instant(),
    ensures
        placed(sorted, session) == sorted.insert(at, session),
    decreases sorted.len() - at,
{
    if at == sorted.len() {
        assert(sorted.insert(at, session) =~= sorted.push(session));
    } else {
        let front = sorted.drop_last();
        lemma_placed_at(front, session, at);
        assert(front.insert(at, session).push(sorted.last()) =~= sorted.insert(at, session));
    }
}

proof fn lemma_placed_keeps_order(sorted: Seq<SessionView>, session: SessionView)
    requires
        ordered(sorted),
    ensures
        ordered(placed(sorted, session)),
        placed(sorted, session).to_multiset() == sorted.to_multiset().insert(session),
        placed(sorted, session).len() == sorted.len() + 1,
    decreases sorted.len(),
{
    broadcast use vstd::seq_lib::group_to_multiset_ensures;

    if sorted.len() == 0 {
        assert(seq![session] =~= Seq::<SessionView>::empty().push(session));
    } else if sorted.last().start.instant() <= session.start.instant() {
    } else {
        let front = sorted.drop_last();
        assert(ordered(front)) by {
            assert forall|i: int, j: int| 0 <= i <= j < front.len() implies (
            #[trigger] front[i]).start.instant() <= (#[trigger] front[j]).start.instant() by {
                assert(front[i] == sorted[i] && front[j] == sorted[j]);
            }
        }
        lemma_placed_keeps_order(front, session);
        let inner = placed(front, session);
        let out = inner.push(sorted.last());
        assert(sorted =~= front.push(sorted.last()));
        assert(front.to_multiset().insert(session).insert(sorted.last())
            =~= front.to_multiset().insert(sorted.last()).insert(session));
        assert forall|i: int, j: int| 0 <= i <= j < out.len() implies (
        #[trigger] out[i]).start.instant() <= (#[trigger] out[j]).start.instant() by {
            if j == out.len() - 1 && i < j {
                assert(inner.to_multiset().count(inner[i]) > 0);
                if inner[i] != session {
                    assert(front.to_multiset().count(inner[i]) > 0);
                    let k = choose|k: int| 0 <= k < front.len() && front[k] == inner[i];
                    assert(sorted[k] == front[k]);
                    assert(sorted[sorted.len() - 1] == sorted.last());
                }
            } else if i < j {
                assert(out[i] == inner[i] && out[j] == inner[j]);
            }
        }
    }
}

/// The sessions in the order of their start are the same sessions, each as
/// often as before, and none begins before one in front of it.
pub proof fn lemma_in_start_order(sessions: Seq<SessionView>)
    ensures
        ordered(in_start_order(sessions)),
        in_start_order(sessions).to_multiset() == sessions.to_multiset(),
        in_start_order(sessions).len() == sessions.len(),
    decreases sessions.len(),
{
    broadcast use vstd::seq_lib::group_to_multiset_ensures;

    if sessions.len() == 0 {
    } else {
        let front = sessions.drop_last();
        lemma_in_start_order(front);
        lemma_placed_keeps_order(in_start_order(front), sessions.last());
        assert(sessions =~= front.push(sessions.last()));
    }
}

/// The sessions by their start, earliest first; sessions with the same
/// start keep their order.
pub fn sort_by_start(sessions: &Vec<Session>) -> (sorted: Vec<Session>)
    ensures
        views(sorted@) == in_start_order(views(sessions@)),
{
    let mut sorted: Vec<Session> = Vec::new();
    let mut i: usize = 0;
    proof {
        assert(views(sessions@).take(0) =~= Seq::<SessionView>::empty());
        assert(views(sorted@) =~= Seq::<SessionView>::empty());
    }
    while i < sessions.len()
        invariant
            i <= sessions.len(),
            sorted.len() == i,
            views(sorted@) == in_start_order(views(sessions@).take(i as int)),
        decreases sessions.len() - i,
    {
        let session = sessions[i].duplicate();
        let key = session.start.unix_seconds();
        let mut at: usize = sorted.len();
        while at > 0
            invariant
                at <= sorted.len(),
                key == session@.start.instant(),
                forall|k: int|
                    at <= k < sorted.len() ==> (#[trigger] views(sorted@)[k]).start.instant() > key,
            ensures
                at > 0 ==> views(sorted@)[at - 1].start.instant() <= key,
            decreases at,
        {
            if sorted[at - 1].start.unix_seconds() <= key {
                break ;
            }
            at = at - 1;
        }
        let ghost before = sorted@;
        proof {
            lemma_placed_at(views(before), session@, at as int);
            let upto = views(sessions@).take(i + 1);
            assert(upto.drop_last() =~= views(sessions@).take(i as int));
            assert(upto.last() == session@);
        }
        let ghost one = session@;
        sorted.insert(at, session);
        assert(views(sorted@) =~= views(before).insert(at as int, one));
        i = i + 1;
    }
    assert(views(sessions@).take(sessions.len() as int) =~= views(sessions@));
    sorted
}

// ---------------------------------------------------------------------------
// The table on the screen
// ---------------------------------------------------------------------------

/// The cells of one row of the table on the screen.
#[derive(Clone, Debug, PartialEq, Eq)]
pub struct TableRow {
    pub description: String,
    pub duration: String,
    pub start: String,
}

/// The cells of a row as values of the model.
pub struct TableRowView {
    pub description: Seq<char>,
    pub duration: Seq<char>,
    pub start: Seq<char>,
}

impl View for TableRow {
    type V = TableRowView;

    open spec fn view(&self) -> TableRowView {
        TableRowView {
            description: self.description@,
            duration: self.duration@,
            start: self.start@,
        }
    }
}

/// The row of a session: its description, its planned length in whole
/// minutes and its start.
pub open spec fn row_of(session: SessionView) -> TableRowView {
    TableRowView {
        description: session.description,
        duration: decimal(session.duration / 60),
        start: human_readable(session.start),
    }
}

/// The rows of the table on the screen, one for each session, in the order
/// of the sessions.
pub fn print_table(sessions: &Vec<Session>) -> (rows: Vec<TableRow>)
    ensures
        rows.len() == sessions.len(),
        forall|i: int| 0 <= i < rows.len() ==> (#[trigger] rows[i])@ == row_of(sessions[i]@),
{
    let mut rows: Vec<TableRow> = Vec::new();
    let mut i: usize = 0;
    while i < sessions.len()
        invariant
            i <= sessions.len(),
            rows.len() == i,
            forall|k: int| 0 <= k < i ==> (#[trigger] rows[k])@ == row_of(sessions[k]@),
        decreases sessions.len() - i,
    {
        let mut duration = String::new();
        push_decimal(&mut duration, duration_in_minutes(sessions[i].duration));
        assert(duration@ =~= decimal(sessions[i as int]@.duration / 60));
        rows.push(
            TableRow {
                description: sessions[i].description.clone(),
                duration,
                start: serialize_human_readable(&sessions[i].start),
            },
        );
        i = i + 1;
    }
    rows
}

// ---------------------------------------------------------------------------
// The plain table
// ---------------------------------------------------------------------------

/// `count` spaces.
pub open spec fn spaces(count: int) -> Seq<char> {
    Seq::new(
        if count > 0 {
            count as nat
        } else {
            0
        },
        |i: int| ' ',
    )
}

/// `text` with spaces behind it up to `width` characters; a longer text
/// stays as it is.
pub open spec fn padded(text: Seq<char>, width: int) -> Seq<char> {
    text + spaces(width - text.len())
}

/// `text` with spaces in front of it up to `width` characters.
pub open spec fn right_aligned(text: Seq<char>, width: int) -> Seq<char> {
    spaces(width - text.len()) + text
}

/// A number in at least two digits.
pub open spec fn two_digits(n: nat) -> Seq<char> {
    if n < 10 {
        seq!['0'] + decimal(n)
    } else {
        decimal(n)
    }
}

/// Two numbers with a colon between them, as on a clock.
pub open spec fn clock(left: nat, right: nat) -> Seq<char> {
    two_digits(left) + seq![':'] + two_digits(right)
}

/// The line of the plain table for the session at `index`: its number,
/// its start, its length in minutes and seconds, and its description.
pub open spec fn export_row(index: nat, session: SessionView) -> Seq<char> {
    "| "@ + right_aligned(decimal(index + 1), 6) + " | "@ + padded(
        human_readable(session.start),
        21,
    ) + " | "@ + padded(clock(session.duration / 60, session.duration % 60), 9) + " | "@ + padded(
        session.description,
        18,
    ) + " |\n"@
}

/// The lines of the sessions, one after the other.
pub open spec fn export_rows(sessions: Seq<SessionView>) -> Seq<char>
    decreases sessions.len(),
{
    if sessions.len() == 0 {
        Seq::empty()
    } else {
        export_rows(sessions.drop_last()) + export_row(
            (sessions.len() - 1) as nat,
            sessions.last(),
        )
    }
}

/// The seconds of all sessions together.
pub open spec fn total_seconds(sessions: Seq<SessionView>) -> nat
    decreases sessions.len(),
{
    if sessions.len() == 0 {
        0
    } else {
        total_seconds(sessions.drop_last()) + sessions.last().duration
    }
}

/// The last line of the plain table: the time of all sessions together,
/// in hours and minutes.
pub open spec fn total_row(seconds: nat) -> Seq<char> {
    "| Total  |            --         | "@ + clock(seconds / 60 / 60, seconds / 60 % 60)
        + "     |      --------      |\n"@
}

/// The plain table of the sessions: two lines of heading, the sessions by
/// their start, and the total.
pub open spec fn export_text(sessions: Seq<SessionView>) -> Seq<char> {
    "|   No   |           Start       |   Dauer   |     Beschreibung   |\n"@
        + "|--------|-----------------------|-----------|--------------------|\n"@ + export_rows(
        in_start_order(sessions),
    ) + total_row(total_seconds(sessions))
}

fn push_spaces(out: &mut String, count: usize)
    ensures
        final(out)@ == old(out)@ + spaces(count as int),
{
    let mut i: usize = 0;
    assert(out@ + spaces(0) =~= out@);
    while i < count
        invariant
            i <= count,
            out@ == old(out)@ + spaces(i as int),
        decreases count - i,
    {
        out.push(' ');
        assert(spaces(i as int).push(' ') =~= spaces(i + 1));
        assert(out@ =~= old(out)@ + spaces(i + 1));
        i = i + 1;
    }
}

fn push_padded(out: &mut String, text: &str, width: usize)
    ensures
        final(out)@ == old(out)@ + padded(text@, width as int),
{
    let length = chars_of(text).len();
    out.append(text);
    if length < width {
        push_spaces(out, width - length);
    } else {
        assert(spaces(width - length) =~= Seq::<char>::empty());
    }
    assert(out@ =~= old(out)@ + padded(text@, width as int));
}

fn push_right_aligned(out: &mut String, text: &str, width: usize)
    ensures
        final(out)@ == old(out)@ + right_aligned(text@, width as int),
{
    let length = chars_of(text).len();
    if length < width {
        push_spaces(out, width - length);
    } else {
        assert(spaces(width - length) =~= Seq::<char>::empty());
    }
    out.append(text);
    assert(out@ =~= old(out)@ + right_aligned(text@, width as int));
}

fn push_two_digits(out: &mut String, n: u128)
    ensures
        final(out)@ == old(out)@ + two_digits(n as nat),
{
    if n < 10 {
        out.push('0');
    }
    push_wide_decimal(out, n);
    assert(out@ =~= old(out)@ + two_digits(n as nat));
}

fn clock_text(left: u128, right: u128) -> (text: String)
    ensures
        text@ == clock(left as nat, right as nat),
{
    let mut text = String::new();
    push_two_digits(&mut text, left);
    text.push(':');
    push_two_digits(&mut text, right);
    assert(text@ =~= clock(left as nat, right as nat));
    text
}

fn push_export_row(out: &mut String, index: usize, session: &Session)
    ensures
        final(out)@ == old(out)@ + export_row(index as nat, session@),
{
    let mut number = String::new();
    push_wide_decimal(&mut number, index as u128 + 1);
    assert(number@ =~= decimal((index + 1) as nat));
    let start = serialize_human_readable(&session.start);
    let length = clock_text((session.duration / 60) as u128, (session.duration % 60) as u128);
    out.append("| ");
    push_right_aligned(out, number.as_str(), 6);
    out.append(" | ");
    push_padded(out, start.as_str(), 21);
    out.append(" | ");
    push_padded(out, length.as_str(), 9);
    out.append(" | ");
    push_padded(out, session.description.as_str(), 18);
    out.append(" |\n");
    assert(out@ =~= old(out)@ + export_row(index as nat, session@));
}

/// The plain table of the sessions: a heading, one line for each session in
/// the order of their start, and a line with the time of all together.
pub fn export_to_ascii_table(sessions: &Vec<Session>) -> (table: String)
    ensures
        table@ == export_text(views(sessions@)),
{
    let sorted = sort_by_start(sessions);
    let mut table = String::from_str(
        "|   No   |           Start       |   Dauer   |     Beschreibung   |\n",
    );
    table.append("|--------|-----------------------|-----------|--------------------|\n");
    let ghost heading = table@;
    let mut total: u128 = 0;
    let mut i: usize = 0;
    proof {
        assert(views(sorted@).take(0) =~= Seq::<SessionView>::empty());
        assert(heading + export_rows(Seq::<SessionView>::empty()) =~= heading);
    }
    while i < sorted.len()
        invariant
            i <= sorted.len(),
            table@ == heading + export_rows(views(sorted@).take(i as int)),
            total == total_seconds(views(sorted@).take(i as int)),
            total <= i * u64::MAX,
        decreases sorted.len() - i,
    {
        proof {
            let upto = views(sorted@).take(i + 1);
            assert(upto.drop_last() =~= views(sorted@).take(i as int));
            assert(upto.last() == sorted@[i as int]@);
            assert((i + 1) * u64::MAX == i * u64::MAX + u64::MAX) by (nonlinear_arith);
            assert(i * u64::MAX <= usize::MAX * u64::MAX) by (nonlinear_arith)
                requires
                    i <= usize::MAX,
            ;
        }
        push_export_row(&mut table, i, &sorted[i]);
        total = total + sorted[i].duration as u128;
        proof {
            let upto = views(sorted@).take(i + 1);
            assert(table@ =~= heading + export_rows(upto));
        }
        i = i + 1;
    }
    proof {
        assert(views(sorted@).take(sorted.len() as int) =~= views(sorted@));
        lemma_total_of_order(views(sessions@));
    }
    let minutes = total / 60;
    let sum = clock_text(minutes / 60, minutes % 60);
    table.append("| Total  |            --         | ");
    table.append(sum.as_str());
    table.append("     |      --------      |\n");
    assert(table@ =~= export_text(views(sessions@)));
    table
}

proof fn lemma_total_of_placed(sorted: Seq<SessionView>, session: SessionView)
    ensures
        total_seconds(placed(sorted, session)) == total_seconds(sorted) + session.duration,
    decreases sorted.len(),
{
    if sorted.len() == 0 {
        let one = seq![session];
        assert(one.drop_last() =~= Seq::<SessionView>::empty());
        assert(one.last() == session);
        assert(total_seconds(one.drop_last()) == 0);
    } else if sorted.last().start.instant() <= session.start.instant() {
        let out = sorted.push(session);
        assert(out.drop_last() =~= sorted);
        assert(out.last() == session);
    } else {
        lemma_total_of_placed(sorted.drop_last(), session);
        let inner = placed(sorted.drop_last(), session);
        let out = inner.push(sorted.last());
        assert(out.drop_last() =~= inner);
        assert(out.last() == sorted.last());
    }
}

/// Putting the sessions in order does not change the time they take
/// together.
pub proof fn lemma_total_of_order(sessions: Seq<SessionView>)
    ensures
        total_seconds(in_start_order(sessions)) == total_seconds(sessions),
    decreases sessions.len(),
{
    if sessions.len() > 0 {
        lemma_total_of_order(sessions.drop_last());
        lemma_total_of_placed(in_start_order(sessions.drop_last()), sessions.last());
    }
}

} // verus!
