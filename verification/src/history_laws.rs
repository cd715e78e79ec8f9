//! What holds between writing the ledger and reading it back.

use crate::history::{
    event, event_line, events_of, latest, ledger_events, merge_event, parse_event, render,
    EventView,
};
use crate::text::{
    all_digits, decimal, first_index, has_char, is_digit, is_first_index, lemma_decimal_digits,
    lemma_first_index, lines, parse_unsigned, strip_cr,
};
use vstd::prelude::*;

verus! {

/// A name that a ledger line can carry and give back: it holds neither a
/// line feed nor a tab, and does not end in a carriage return.
pub open spec fn is_plain_name(name: Seq<char>) -> bool {
    &&& !has_char(name, '\n')
    &&& !has_char(name, '\t')
    &&& name.len() > 0 ==> name.last() != '\r'
}

/// Content to which a line can be appended without running into the line
/// before: it is empty or ends in a line feed.
pub open spec fn ends_cleanly(content: Seq<char>) -> bool {
    content.len() > 0 ==> content.last() == '\n'
}

/// The first occurrence of `c` in `a` is also its first occurrence in `a + b`.
proof fn lemma_first_index_in_front(a: Seq<char>, b: Seq<char>, c: char)
    requires
        has_char(a, c),
    ensures
        first_index(a + b, c) == first_index(a, c),
{
    lemma_first_index(a, c);
    lemma_first_index(a + b, c);
    let p = first_index(a, c);
    assert((a + b)[p] == a[p]);
    assert forall|j: int| 0 <= j < p implies (a + b)[j] != c by {
        assert((a + b)[j] == a[j]);
    }
    assert(is_first_index(a + b, c, p));
}

/// Where `c` does not occur in `a`, its first occurrence in `a + b` is the
/// one in `b`, moved by the length of `a`.
proof fn lemma_first_index_behind(a: Seq<char>, b: Seq<char>, c: char)
    requires
        !has_char(a, c),
    ensures
        first_index(a + b, c) == a.len() + first_index(b, c),
{
    lemma_first_index(a, c);
    lemma_first_index(b, c);
    lemma_first_index(a + b, c);
    let p = a.len() + first_index(b, c);
    if first_index(b, c) < b.len() {
        assert((a + b)[p] == b[first_index(b, c)]);
    }
    assert forall|j: int| 0 <= j < p implies (a + b)[j] != c by {
        if j < a.len() {
            assert((a + b)[j] == a[j]);
        } else {
            assert((a + b)[j] == b[j - a.len()]);
        }
    }
    assert(is_first_index(a + b, c, p));
}

/// The lines of two pieces of content, one after the other, are the lines of
/// the first followed by the lines of the second, provided the first ends cleanly.
pub proof fn lemma_lines_concat(a: Seq<char>, b: Seq<char>)
    requires
        ends_cleanly(a),
    ensures
        lines(a + b) == lines(a) + lines(b),
    decreases a.len(),
{
    if a.len() == 0 {
        assert(a + b =~= b);
        assert(lines(a) + lines(b) =~= lines(b));
    } else {
        lemma_first_index(a, '\n');
        let p = first_index(a, '\n');
        assert(p < a.len()) by {
            if p >= a.len() {
                assert(a[a.len() - 1] != '\n');
            }
        }
        lemma_first_index_in_front(a, b, '\n');
        let rest = a.skip(p + 1);
        assert((a + b).take(p) =~= a.take(p));
        assert((a + b).skip(p + 1) =~= rest + b);
        assert(ends_cleanly(rest)) by {
            if rest.len() > 0 {
                assert(rest.last() == a.last());
            }
        }
        lemma_lines_concat(rest, b);
        assert(lines(a + b) =~= lines(a) + lines(b));
    }
}

/// The events of two lists of lines, one after the other, are the events of
/// the first followed by the events of the second.
pub proof fn lemma_events_of_concat(a: Seq<Seq<char>>, b: Seq<Seq<char>>)
    ensures
        events_of(a + b) == events_of(a) + events_of(b),
    decreases b.len(),
{
    if b.len() == 0 {
        assert(a + b =~= a);
        assert(events_of(a) + events_of(b) =~= events_of(a));
    } else {
        lemma_events_of_concat(a, b.drop_last());
        assert((a + b).drop_last() =~= a + b.drop_last());
        assert((a + b).last() == b.last());
        assert(events_of(a + b) =~= events_of(a) + events_of(b));
    }
}

/// No digit is a tab or a line feed.
proof fn lemma_digits_hold_no(s: Seq<char>, c: char)
    requires
        all_digits(s),
        !is_digit(c),
    ensures
        !has_char(s, c),
{
    lemma_first_index(s, c);
    if first_index(s, c) < s.len() {
        assert(is_digit(s[first_index(s, c)]));
    }
}

/// The line written for the launch of a plain name is one line, and it
/// records that launch.
pub proof fn lemma_event_line_round_trip(timestamp: u64, name: Seq<char>)
    requires
        is_plain_name(name),
    ensures
        ledger_events(event_line(event(timestamp, name))) == seq![event(timestamp, name)],
{
    let digits = decimal(timestamp as nat);
    let line = digits + seq!['\t'] + name;
    let text = event_line(event(timestamp, name));
    assert(text =~= line + seq!['\n']);
    lemma_decimal_digits(timestamp as nat);
    // The line holds no line feed, so the text is this one line.
    lemma_digits_hold_no(digits, '\n');
    lemma_first_index_behind(digits, seq!['\t'] + name, '\n');
    assert(digits + (seq!['\t'] + name) =~= line);
    assert(first_index(seq!['\t'], '\n') == 1) by {
        lemma_first_index(seq!['\t'], '\n');
        assert(is_first_index(seq!['\t'], '\n', 1));
    }
    lemma_first_index_behind(seq!['\t'], name, '\n');
    lemma_first_index(name, '\n');
    assert(!has_char(line, '\n'));
    lemma_first_index_behind(line, seq!['\n'], '\n');
    assert(first_index(seq!['\n'], '\n') == 0);
    assert(first_index(text, '\n') == line.len());
    assert(text.take(line.len() as int) =~= line);
    assert(text.skip(line.len() as int + 1) =~= Seq::<char>::empty());
    assert(strip_cr(line) == line) by {
        if name.len() > 0 {
            assert(line.last() == name.last());
        } else {
            assert(line.last() == '\t');
        }
    }
    assert(lines(text.skip(line.len() as int + 1)) =~= Seq::<Seq<char>>::empty());
    assert(lines(text) =~= seq![strip_cr(text.take(line.len() as int))] + lines(
        text.skip(line.len() as int + 1),
    ));
    assert(lines(text) =~= seq![line]);
    // The line splits at its one tab into the number and the name.
    lemma_digits_hold_no(digits, '\t');
    lemma_first_index_behind(digits, seq!['\t'] + name, '\t');
    lemma_first_index_in_front(seq!['\t'], name, '\t');
    assert(first_index(seq!['\t'], '\t') == 0);
    assert(first_index(line, '\t') == digits.len());
    assert(line.take(digits.len() as int) =~= digits);
    assert(line.skip(digits.len() as int + 1) =~= name);
    assert(parse_unsigned(digits) == Some(timestamp));
    assert(parse_event(line) == Some(event(timestamp, name)));
    assert(seq![line].drop_last() =~= Seq::<Seq<char>>::empty());
    assert(seq![line].last() == line);
    assert(events_of(seq![line].drop_last()) =~= Seq::<EventView>::empty());
    assert(events_of(seq![line]) =~= Seq::<EventView>::empty().push(event(timestamp, name)));
    assert(events_of(seq![line]) =~= seq![event(timestamp, name)]);
}

/// Recording a launch and reading the ledger back: the ledger then records
/// what it recorded before, and the new launch after that.
pub proof fn lemma_record_appends_event(content: Seq<char>, timestamp: u64, name: Seq<char>)
    requires
        ends_cleanly(content),
        is_plain_name(name),
    ensures
        ledger_events(content + event_line(event(timestamp, name))) == ledger_events(content).push(
            event(timestamp, name),
        ),
{
    let text = event_line(event(timestamp, name));
    lemma_lines_concat(content, text);
    lemma_events_of_concat(lines(content), lines(text));
    lemma_event_line_round_trip(timestamp, name);
    assert(ledger_events(content) + seq![event(timestamp, name)] =~= ledger_events(content).push(
        event(timestamp, name),
    ));
}

/// Recording a launch and loading the history right after: the history knows
/// the name, with the new time stamp unless it already held a later one.
pub proof fn lemma_record_then_load(content: Seq<char>, timestamp: u64, name: Seq<char>)
    requires
        ends_cleanly(content),
        is_plain_name(name),
    ensures
        latest(ledger_events(content + event_line(event(timestamp, name)))) == merge_event(
            latest(ledger_events(content)),
            event(timestamp, name),
        ),
        latest(ledger_events(content + event_line(event(timestamp, name)))).contains_key(name),
        latest(ledger_events(content + event_line(event(timestamp, name))))[name] >= timestamp,
        !latest(ledger_events(content)).contains_key(name) || latest(ledger_events(content))[name]
            <= timestamp ==> latest(
            ledger_events(content + event_line(event(timestamp, name))),
        )[name] == timestamp,
{
    lemma_record_appends_event(content, timestamp, name);
    let after = ledger_events(content).push(event(timestamp, name));
    assert(after.drop_last() =~= ledger_events(content));
}

/// All the names are plain.
pub open spec fn all_plain(events: Seq<EventView>) -> bool {
    forall|i: int| 0 <= i < events.len() ==> is_plain_name((#[trigger] events[i]).name)
}

/// What is rendered ends cleanly.
pub proof fn lemma_render_ends_cleanly(events: Seq<EventView>)
    ensures
        ends_cleanly(render(events)),
{
    if events.len() > 0 {
        let line = event_line(events.last());
        assert(render(events).last() == line.last());
    }
}

/// A ledger rendered from events with plain names records those events.
pub proof fn lemma_render_round_trip(events: Seq<EventView>)
    requires
        all_plain(events),
    ensures
        ledger_events(render(events)) == events,
    decreases events.len(),
{
    if events.len() == 0 {
        assert(ledger_events(render(events)) =~= events);
    } else {
        let before = events.drop_last();
        let last = events.last();
        assert(all_plain(before)) by {
            assert forall|i: int| 0 <= i < before.len() implies is_plain_name(
                (#[trigger] before[i]).name,
            ) by {
                assert(before[i] == events[i]);
            }
        }
        lemma_render_round_trip(before);
        lemma_render_ends_cleanly(before);
        assert(last == event(last.timestamp, last.name));
        lemma_record_appends_event(render(before), last.timestamp, last.name);
        assert(before.push(last) =~= events);
    }
}

} // verus!
