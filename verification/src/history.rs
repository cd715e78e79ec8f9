//! The launch-history ledger: one line per launch, a time stamp and the name
//! of the application, separated by a tab.
//!
//! This module holds the text side of the ledger: what a line means, what a
//! whole ledger amounts to, and what compaction keeps. Which file operations
//! happen, and in which order, is the business of `crate::ledger`.

pub use crate::ledger::{ensure_not_symlink, temp_history_name};
use crate::order::{
    insert_point, is_sorted, is_total_preorder, lemma_filter_agrees, lemma_stable_sort_keeps_ties,
    lemma_stable_sort_len, lemma_stable_sort_permutes, lemma_stable_sort_sorted, stable_sort,
    ties_with,
};
pub use crate::paths::history_path;
use crate::text::{
    chars_of, decimal, find_char, first_index, has_char, line_ranges, lines, parse_unsigned,
    parse_unsigned_range, push_char, push_decimal, ranges_text, ranges_within, same_text,
    string_of_range,
};
use vstd::prelude::*;

verus! {

/// When the ledger grows beyond this many lines it is due for compaction.
pub const MAX_HISTORY_LINES: usize = 200;

/// The ledger is measured in bytes, not lines: a line is reckoned at this many.
pub const BYTES_PER_LINE: u64 = 100;

/// One launch: when it happened, in seconds since the epoch, and what was launched.
#[derive(Debug)]
pub struct HistoryEvent {
    pub timestamp: u64,
    pub name: String,
}

/// A launch as specifications see it.
pub struct EventView {
    pub timestamp: u64,
    pub name: Seq<char>,
}

impl View for HistoryEvent {
    type V = EventView;

    open spec fn view(&self) -> EventView {
        EventView { timestamp: self.timestamp, name: self.name@ }
    }
}

impl HistoryEvent {
    /// A copy of this event.
    pub fn duplicate(&self) -> (r: HistoryEvent)
        ensures
            r@ == self@,
    {
        HistoryEvent { timestamp: self.timestamp, name: self.name.clone() }
    }
}

/// The launch of `name` at `timestamp`.
pub open spec fn event(timestamp: u64, name: Seq<char>) -> EventView {
    EventView { timestamp, name }
}

/// An event that may be missing, as specifications see it.
pub open spec fn event_opt_view(e: Option<HistoryEvent>) -> Option<EventView> {
    match e {
        Some(e) => Some(e@),
        None => None,
    }
}

/// The events of a list, as specifications see them.
pub open spec fn events_view(events: Seq<HistoryEvent>) -> Seq<EventView> {
    Seq::new(events.len(), |i: int| events[i]@)
}

/// The event that a ledger line records, if it records one: the line holds
/// exactly one tab, and what stands before the tab is an unsigned decimal
/// number of at most 64 bits. What stands behind the tab is the name.
pub open spec fn parse_event(line: Seq<char>) -> Option<EventView> {
    let p = first_index(line, '\t');
    if has_char(line, '\t') && !has_char(line.skip(p + 1), '\t') {
        match parse_unsigned(line.take(p)) {
            Some(timestamp) => Some(event(timestamp, line.skip(p + 1))),
            None => None,
        }
    } else {
        None
    }
}

/// The events that a list of lines records; lines that record none are passed over.
pub open spec fn events_of(lines: Seq<Seq<char>>) -> Seq<EventView>
    decreases lines.len(),
{
    if lines.len() == 0 {
        Seq::empty()
    } else {
        let before = events_of(lines.drop_last());
        match parse_event(lines.last()) {
            Some(e) => before.push(e),
            None => before,
        }
    }
}

/// The events that a ledger with the given content records.
pub open spec fn ledger_events(content: Seq<char>) -> Seq<EventView> {
    events_of(lines(content))
}

/// The line that records `e`, line feed included.
pub open spec fn event_line(e: EventView) -> Seq<char> {
    decimal(e.timestamp as nat) + seq!['\t'] + e.name + seq!['\n']
}

/// The ledger content that records `events`, one line each, in order.
pub open spec fn render(events: Seq<EventView>) -> Seq<char>
    decreases events.len(),
{
    if events.len() == 0 {
        Seq::empty()
    } else {
        render(events.drop_last()) + event_line(events.last())
    }
}

/// Reads the event recorded by `v[lo..hi]`.
fn parse_event_range(v: &Vec<char>, lo: usize, hi: usize) -> (r: Option<HistoryEvent>)
    requires
        lo <= hi <= v.len(),
    ensures
        event_opt_view(r) == parse_event(v@.subrange(lo as int, hi as int)),
{
    let ghost line = v@.subrange(lo as int, hi as int);
    let p = find_char(v, lo, hi, '\t');
    if p == hi {
        return None;
    }
    assert(line.skip(p - lo + 1) =~= v@.subrange(p + 1, hi as int));
    assert(line.take(p - lo) =~= v@.subrange(lo as int, p as int));
    let q = find_char(v, p + 1, hi, '\t');
    if q < hi {
        return None;
    }
    match parse_unsigned_range(v, lo, p) {
        Some(timestamp) => {
            let name = string_of_range(v, p + 1, hi);
            Some(HistoryEvent { timestamp, name })
        },
        None => None,
    }
}

/// Reads the event that one ledger line records.
pub fn parse_line(line: &str) -> (r: Option<HistoryEvent>)
    ensures
        event_opt_view(r) == parse_event(line@),
{
    let v = chars_of(line);
    assert(v@.subrange(0, v.len() as int) =~= v@);
    parse_event_range(&v, 0, v.len())
}

/// Reads every event that a ledger records, in the order of its lines.
pub fn parse_events(content: &str) -> (events: Vec<HistoryEvent>)
    ensures
        events_view(events@) == ledger_events(content@),
{
    let v = chars_of(content);
    let ranges = line_ranges(&v);
    let mut events: Vec<HistoryEvent> = Vec::new();
    let mut k: usize = 0;
    assert(lines(v@).take(0) =~= Seq::<Seq<char>>::empty());
    assert(events_view(events@) =~= Seq::<EventView>::empty());
    while k < ranges.len()
        invariant
            k <= ranges.len(),
            ranges_within(ranges@, v.len() as int),
            ranges_text(v@, ranges@) == lines(v@),
            events_view(events@) == events_of(lines(v@).take(k as int)),
        decreases ranges.len() - k,
    {
        let (lo, hi) = ranges[k];
        let ghost before = events@;
        proof {
            assert(lines(v@)[k as int] == v@.subrange(lo as int, hi as int));
            assert(lines(v@).take(k + 1).drop_last() =~= lines(v@).take(k as int));
            assert(lines(v@).take(k + 1).last() == lines(v@)[k as int]);
        }
        match parse_event_range(&v, lo, hi) {
            Some(e) => {
                let ghost ev = e@;
                events.push(e);
                assert(events_view(events@) =~= events_view(before).push(ev));
            },
            None => {},
        }
        k = k + 1;
    }
    assert(lines(v@).take(ranges.len() as int) =~= lines(v@));
    events
}

/// Writes the line that records one launch.
pub fn push_event_line(out: &mut String, timestamp: u64, name: &str)
    ensures
        final(out)@ == old(out)@ + event_line(event(timestamp, name@)),
{
    push_decimal(out, timestamp as u128);
    push_char(out, '\t');
    out.append(name);
    push_char(out, '\n');
    assert(final(out)@ =~= old(out)@ + event_line(event(timestamp, name@)));
}

/// The line to append to the ledger for a launch of `app_name` at `timestamp`.
pub fn record_launch(timestamp: u64, app_name: &str) -> (line: String)
    ensures
        line@ == event_line(event(timestamp, app_name@)),
{
    let mut line = String::new();
    push_event_line(&mut line, timestamp, app_name);
    assert(Seq::<char>::empty() + event_line(event(timestamp, app_name@)) =~= event_line(
        event(timestamp, app_name@),
    ));
    line
}

/// The ledger content that records `events`.
pub fn render_events(events: &Vec<HistoryEvent>) -> (content: String)
    ensures
        content@ == render(events_view(events@)),
{
    let mut content = String::new();
    let mut k: usize = 0;
    assert(events_view(events@).take(0) =~= Seq::<EventView>::empty());
    while k < events.len()
        invariant
            k <= events.len(),
            content@ == render(events_view(events@).take(k as int)),
        decreases events.len() - k,
    {
        proof {
            let s = events_view(events@);
            assert(s.take(k + 1).drop_last() =~= s.take(k as int));
            assert(s.take(k + 1).last() == events[k as int]@);
        }
        push_event_line(&mut content, events[k].timestamp, events[k].name.as_str());
        k = k + 1;
    }
    assert(events_view(events@).take(events.len() as int) =~= events_view(events@));
    content
}

/// What a ledger amounts to once one more event is taken in: the event's
/// name is known from then on, and stands with the later of its old time
/// stamp, if it had one, and the event's.
pub open spec fn merge_event(m: Map<Seq<char>, u64>, e: EventView) -> Map<Seq<char>, u64> {
    if m.contains_key(e.name) && m[e.name] >= e.timestamp {
        m
    } else {
        m.insert(e.name, e.timestamp)
    }
}

/// What a list of events amounts to: each name that was launched, with the
/// time stamp of its latest launch.
pub open spec fn latest(events: Seq<EventView>) -> Map<Seq<char>, u64>
    decreases events.len(),
{
    if events.len() == 0 {
        Map::empty()
    } else {
        merge_event(latest(events.drop_last()), events.last())
    }
}

/// `latest` knows exactly the names that occur, and gives each the greatest
/// of its time stamps.
pub proof fn lemma_latest_is_maximum(events: Seq<EventView>, name: Seq<char>)
    ensures
        latest(events).contains_key(name) <==> exists|i: int|
            0 <= i < events.len() && (#[trigger] events[i]).name == name,
        forall|i: int|
            0 <= i < events.len() && (#[trigger] events[i]).name == name ==> events[i].timestamp
                <= latest(events)[name],
        latest(events).contains_key(name) ==> exists|i: int|
            0 <= i < events.len() && (#[trigger] events[i]).name == name && events[i].timestamp
                == latest(events)[name],
    decreases events.len(),
{
    if events.len() > 0 {
        let before = events.drop_last();
        let last = events.last();
        lemma_latest_is_maximum(before, name);
        assert forall|i: int| 0 <= i < before.len() implies before[i] == events[i] by {}
        if latest(before).contains_key(name) {
            let i = choose|i: int|
                0 <= i < before.len() && (#[trigger] before[i]).name == name && before[i].timestamp
                    == latest(before)[name];
            assert(events[i].name == name);
            if last.name == name && last.timestamp > latest(before)[name] {
                assert(events[events.len() - 1].name == name);
            } else {
                assert(events[i].timestamp == latest(events)[name]);
            }
        } else if last.name == name {
            assert(events[events.len() - 1].name == name);
        }
        if latest(events).contains_key(name) && !latest(before).contains_key(name) {
            assert(last.name == name);
            assert(events[events.len() - 1].name == name);
        }
        assert forall|i: int|
            0 <= i < events.len() && (#[trigger] events[i]).name == name implies events[i].timestamp
            <= latest(events)[name] by {
            if i < before.len() {
                assert(before[i].name == name);
            }
        }
    }
}

/// The launch history in aggregate: for each application that was ever
/// launched, when it was launched last.
#[derive(Debug)]
pub struct History {
    entries: Vec<HistoryEvent>,
}

impl View for History {
    type V = Map<Seq<char>, u64>;

    closed spec fn view(&self) -> Map<Seq<char>, u64> {
        latest(events_view(self.entries@))
    }
}

impl History {
    /// No name is held twice.
    #[verifier::type_invariant]
    spec fn distinct_names(self) -> bool {
        forall|i: int, j: int|
            0 <= i < j < self.entries.len() ==> (#[trigger] self.entries[i]).name@
                != (#[trigger] self.entries[j]).name@
    }

    /// The history of nothing.
    pub fn new() -> (h: History)
        ensures
            h@ == Map::<Seq<char>, u64>::empty(),
    {
        let h = History { entries: Vec::new() };
        assert(events_view(h.entries@) =~= Seq::<EventView>::empty());
        h
    }

    /// Where `name` is held, if it is.
    fn position(&self, name: &String) -> (r: Option<usize>)
        ensures
            r matches Some(i) ==> i < self.entries.len() && self.entries[i as int].name@ == name@,
            r is None ==> forall|i: int|
                0 <= i < self.entries.len() ==> (#[trigger] self.entries[i]).name@ != name@,
    {
        let mut i: usize = 0;
        while i < self.entries.len()
            invariant
                i <= self.entries.len(),
                forall|j: int| 0 <= j < i ==> (#[trigger] self.entries[j]).name@ != name@,
            decreases self.entries.len() - i,
        {
            if same_text(&self.entries[i].name, name) {
                return Some(i);
            }
            i = i + 1;
        }
        None
    }

    /// With distinct names, each entry is what the view says of its name.
    proof fn lemma_entries(self, name: Seq<char>)
        requires
            self.distinct_names(),
        ensures
            self@.contains_key(name) <==> exists|i: int|
                0 <= i < self.entries.len() && (#[trigger] self.entries[i]).name@ == name,
            forall|i: int|
                0 <= i < self.entries.len() && (#[trigger] self.entries[i]).name@ == name
                    ==> self@[name] == self.entries[i].timestamp,
    {
        let events = events_view(self.entries@);
        lemma_latest_is_maximum(events, name);
        if self@.contains_key(name) {
            let i = choose|i: int| 0 <= i < events.len() && (#[trigger] events[i]).name == name;
            assert(self.entries[i].name@ == name);
        }
        assert forall|i: int|
            0 <= i < self.entries.len() && (#[trigger] self.entries[i]).name@ == name implies self@[name]
            == self.entries[i].timestamp by {
            assert(events[i].name == name);
            let k = choose|k: int|
                0 <= k < events.len() && (#[trigger] events[k]).name == name && events[k].timestamp
                    == latest(events)[name];
            assert(self.entries[k].name@ == name);
            assert(k == i);
        }
        if exists|i: int| 0 <= i < self.entries.len() && (#[trigger] self.entries[i]).name@ == name {
            let i = choose|i: int|
                0 <= i < self.entries.len() && (#[trigger] self.entries[i]).name@ == name;
            assert(events[i].name == name);
        }
    }

    /// How many applications the history knows.
    pub fn len(&self) -> (n: usize)
        ensures
            n == self@.dom().len(),
            self@.dom().finite(),
    {
        proof {
            use_type_invariant(self);
            self.lemma_dom_len();
        }
        self.entries.len()
    }

    /// With distinct names, the view knows as many names as there are entries.
    proof fn lemma_dom_len(self)
        requires
            self.distinct_names(),
        ensures
            self@.dom().finite(),
            self@.dom().len() == self.entries.len(),
    {
        let names = Seq::new(self.entries.len() as nat, |i: int| self.entries[i].name@);
        assert(names.no_duplicates());
        names.unique_seq_to_set();
        assert(names.to_set() =~= self@.dom()) by {
            assert forall|n: Seq<char>| names.to_set().contains(n) <==> self@.dom().contains(
                n,
            ) by {
                self.lemma_entries(n);
                if names.contains(n) {
                    let i = choose|i: int| 0 <= i < names.len() && names[i] == n;
                    assert(self.entries[i].name@ == n);
                }
                if self@.contains_key(n) {
                    let i = choose|i: int|
                        0 <= i < self.entries.len() && (#[trigger] self.entries[i]).name@ == n;
                    assert(names[i] == n);
                }
            }
        }
    }

    /// When `name` was launched last, if it ever was.
    pub fn get(&self, name: &str) -> (r: Option<u64>)
        ensures
            r == (if self@.contains_key(name@) {
                Some(self@[name@])
            } else {
                None
            }),
    {
        let key = name.to_owned();
        proof {
            use_type_invariant(self);
            self.lemma_entries(name@);
        }
        match self.position(&key) {
            Some(i) => Some(self.entries[i].timestamp),
            None => None,
        }
    }

    /// Hands out the entries, leaving none behind.
    fn take_entries(&mut self) -> (entries: Vec<HistoryEvent>)
        ensures
            entries == old(self).entries,
    {
        let mut emptied = History { entries: Vec::new() };
        core::mem::swap(self, &mut emptied);
        emptied.entries
    }

    /// Takes in one more launch.
    pub fn observe(&mut self, timestamp: u64, name: String)
        ensures
            final(self)@ == merge_event(old(self)@, event(timestamp, name@)),
    {
        proof {
            use_type_invariant(&*self);
            self.lemma_entries(name@);
        }
        let ghost e = event(timestamp, name@);
        let ghost old_view = self@;
        let ghost old_self = *self;
        let found = self.position(&name);
        let mut entries = self.take_entries();
        let ghost before = entries@;
        match found {
            Some(i) => {
                if timestamp > entries[i].timestamp {
                    entries.set(i, HistoryEvent { timestamp, name });
                    proof {
                        assert forall|a: int, b: int| 0 <= a < b < entries.len() implies (
                        #[trigger] entries[a]).name@ != (#[trigger] entries[b]).name@ by {
                            assert(entries[a].name@ == before[a].name@);
                            assert(entries[b].name@ == before[b].name@);
                        }
                    }
                    let updated = History { entries };
                    proof {
                        assert forall|n: Seq<char>|
                            updated@.contains_key(n) == (#[trigger] old_view.insert(
                                e.name,
                                e.timestamp,
                            ).contains_key(n)) && (updated@.contains_key(n) ==> updated@[n]
                                == old_view.insert(e.name, e.timestamp)[n]) by {
                            updated.lemma_entries(n);
                            old_self.lemma_entries(n);
                            if old_view.contains_key(n) {
                                let k = choose|k: int|
                                    0 <= k < before.len() && (#[trigger] before[k]).name@ == n;
                                assert(updated.entries[k].name@ == n);
                            }
                            if updated@.contains_key(n) {
                                let k = choose|k: int|
                                    0 <= k < updated.entries.len() && (
                                    #[trigger] updated.entries[k]).name@ == n;
                                assert(before[k].name@ == n);
                                if k != i {
                                    assert(updated.entries[k].timestamp == before[k].timestamp);
                                }
                            }
                        }
                        assert(updated@ =~= old_view.insert(e.name, e.timestamp));
                    }
                    *self = updated;
                } else {
                    *self = History { entries };
                }
            },
            None => {
                entries.push(HistoryEvent { timestamp, name });
                proof {
                    assert(events_view(entries@).drop_last() =~= events_view(before));
                    assert(events_view(entries@).last() == e);
                }
                *self = History { entries };
            },
        }
    }

    /// Every application the history knows, each once, with the time stamp of
    /// its latest launch.
    pub fn entries(&self) -> (list: Vec<HistoryEvent>)
        ensures
            list.len() == self@.dom().len(),
            forall|i: int|
                0 <= i < list.len() ==> self@.contains_key((#[trigger] list[i])@.name)
                    && self@[list[i]@.name] == list[i]@.timestamp,
            forall|name: Seq<char>| #[trigger]
                self@.contains_key(name) ==> exists|i: int|
                    0 <= i < list.len() && (#[trigger] list[i])@.name == name,
            forall|i: int, j: int|
                0 <= i < j < list.len() ==> (#[trigger] list[i])@.name != (#[trigger] list[j])@.name,
    {
        proof {
            use_type_invariant(self);
            self.lemma_dom_len();
        }
        let mut list: Vec<HistoryEvent> = Vec::new();
        let mut i: usize = 0;
        while i < self.entries.len()
            invariant
                i <= self.entries.len(),
                list.len() == i,
                forall|j: int| 0 <= j < i ==> (#[trigger] list[j])@ == self.entries[j]@,
            decreases self.entries.len() - i,
        {
            list.push(self.entries[i].duplicate());
            i = i + 1;
        }
        proof {
            assert forall|k: int| 0 <= k < list.len() implies self@.contains_key(
                (#[trigger] list[k])@.name,
            ) && self@[list[k]@.name] == list[k]@.timestamp by {
                self.lemma_entries(list[k]@.name);
                assert(self.entries[k].name@ == list[k]@.name);
            }
            assert forall|name: Seq<char>| #[trigger] self@.contains_key(name) implies exists|
                k: int,
            |
                0 <= k < list.len() && (#[trigger] list[k])@.name == name by {
                self.lemma_entries(name);
                let k = choose|k: int|
                    0 <= k < self.entries.len() && (#[trigger] self.entries[k]).name@ == name;
                assert(list[k]@.name == name);
            }
            assert forall|a: int, b: int| 0 <= a < b < list.len() implies (#[trigger] list[a])@.name
                != (#[trigger] list[b])@.name by {
                assert(list[a]@ == self.entries[a]@ && list[b]@ == self.entries[b]@);
            }
        }
        list
    }

    /// Takes in what one ledger line records, if it records a launch.
    pub fn observe_line(&mut self, line: &str)
        ensures
            final(self)@ == (match parse_event(line@) {
                Some(e) => merge_event(old(self)@, e),
                None => old(self)@,
            }),
    {
        match parse_line(line) {
            Some(e) => {
                self.observe(e.timestamp, e.name);
            },
            None => {},
        }
    }
}

/// Reads a whole ledger: every name that it records, with the time stamp of
/// its latest launch. Lines that record nothing are passed over.
pub fn load_history(content: &str) -> (history: History)
    ensures
        history@ == latest(ledger_events(content@)),
{
    let events = parse_events(content);
    let mut history = History::new();
    let mut k: usize = 0;
    assert(events_view(events@).take(0) =~= Seq::<EventView>::empty());
    while k < events.len()
        invariant
            k <= events.len(),
            history@ == latest(events_view(events@).take(k as int)),
        decreases events.len() - k,
    {
        proof {
            let s = events_view(events@);
            assert(s.take(k + 1).drop_last() =~= s.take(k as int));
            assert(s.take(k + 1).last() == events[k as int]@);
        }
        history.observe(events[k].timestamp, events[k].name.clone());
        k = k + 1;
    }
    assert(events_view(events@).take(events.len() as int) =~= events_view(events@));
    history
}

/// The order in which a compacted ledger is written: oldest launch first.
pub open spec fn older_first() -> spec_fn(EventView, EventView) -> bool {
    |a: EventView, b: EventView| a.timestamp <= b.timestamp
}

/// The order in which compaction ranks launches: latest launch first.
pub open spec fn newer_first() -> spec_fn(EventView, EventView) -> bool {
    |a: EventView, b: EventView| a.timestamp >= b.timestamp
}

/// The `max_lines` latest of `events`, oldest first. Where launches share a
/// time stamp, the one recorded earlier ranks as the later launch, and they
/// are written in the order in which they were recorded.
pub open spec fn most_recent(events: Seq<EventView>, max_lines: nat) -> Seq<EventView> {
    stable_sort(stable_sort(events, newer_first()).take(max_lines as int), older_first())
}

/// The events that `most_recent` leaves out.
pub open spec fn left_out(events: Seq<EventView>, max_lines: nat) -> Seq<EventView> {
    stable_sort(events, newer_first()).skip(max_lines as int)
}

/// What compaction makes of a ledger's events: nothing changes while there
/// are no more than `max_lines`; beyond that only the latest `max_lines` stay.
pub open spec fn compacted(events: Seq<EventView>, max_lines: nat) -> Seq<EventView> {
    if events.len() <= max_lines {
        events
    } else {
        most_recent(events, max_lines)
    }
}

/// From more than `max_lines` events exactly `max_lines` stay, oldest first;
/// together with those left out they are the events there were; and none of
/// those left out is later than one that stays.
pub proof fn lemma_most_recent(events: Seq<EventView>, max_lines: nat)
    requires
        events.len() > max_lines,
    ensures
        most_recent(events, max_lines).len() == max_lines,
        is_sorted(most_recent(events, max_lines), older_first()),
        most_recent(events, max_lines).to_multiset().add(left_out(events, max_lines).to_multiset())
            == events.to_multiset(),
        forall|i: int, j: int|
            0 <= i < most_recent(events, max_lines).len() && 0 <= j < left_out(
                events,
                max_lines,
            ).len() ==> (#[trigger] left_out(events, max_lines)[j]).timestamp <= (
            #[trigger] most_recent(events, max_lines)[i]).timestamp,
{
    broadcast use vstd::seq_lib::group_to_multiset_ensures;

    let ranked = stable_sort(events, newer_first());
    let kept = ranked.take(max_lines as int);
    let rest = ranked.skip(max_lines as int);
    let out = most_recent(events, max_lines);
    lemma_stable_sort_len(events, newer_first());
    lemma_stable_sort_sorted(events, newer_first());
    lemma_stable_sort_permutes(events, newer_first());
    lemma_stable_sort_len(kept, older_first());
    lemma_stable_sort_sorted(kept, older_first());
    lemma_stable_sort_permutes(kept, older_first());
    assert(kept + rest =~= ranked);
    vstd::seq_lib::lemma_multiset_commutative(kept, rest);
    assert forall|i: int, j: int| 0 <= i < out.len() && 0 <= j < rest.len() implies (
    #[trigger] rest[j]).timestamp <= (#[trigger] out[i]).timestamp by {
        assert(out.to_multiset().count(out[i]) > 0);
        assert(kept.contains(out[i]));
        let k = choose|k: int| 0 <= k < kept.len() && kept[k] == out[i];
        assert(kept[k] == ranked[k]);
        assert(rest[j] == ranked[max_lines + j]);
        assert(newer_first()(ranked[k], ranked[max_lines + j]));
    }
}

/// Whether an event has the time stamp `timestamp`.
pub open spec fn at_time(timestamp: u64) -> spec_fn(EventView) -> bool {
    |e: EventView| e.timestamp == timestamp
}

/// Of the events that share a time stamp, compaction keeps those recorded
/// first, in the order in which they were recorded.
pub proof fn lemma_compacted_keeps_recording_order(
    events: Seq<EventView>,
    max_lines: nat,
    timestamp: u64,
)
    ensures
        compacted(events, max_lines).filter(at_time(timestamp)).is_prefix_of(
            events.filter(at_time(timestamp)),
        ),
{
    let same = at_time(timestamp);
    if events.len() <= max_lines {
        assert(events.filter(same).subrange(0, events.filter(same).len() as int) =~= events.filter(
            same,
        ));
    } else {
        let x = event(timestamp, Seq::empty());
        let ranked = stable_sort(events, newer_first());
        let kept = ranked.take(max_lines as int);
        let rest = ranked.skip(max_lines as int);
        lemma_stable_sort_len(events, newer_first());
        assert(is_total_preorder(newer_first()));
        assert(is_total_preorder(older_first()));
        lemma_stable_sort_keeps_ties(events, newer_first(), x);
        lemma_filter_agrees(ranked, same, ties_with(x, newer_first()));
        lemma_filter_agrees(events, same, ties_with(x, newer_first()));
        lemma_stable_sort_keeps_ties(kept, older_first(), x);
        lemma_filter_agrees(most_recent(events, max_lines), same, ties_with(x, older_first()));
        lemma_filter_agrees(kept, same, ties_with(x, older_first()));
        assert(kept + rest =~= ranked);
        Seq::filter_distributes_over_add(kept, rest, same);
        assert((kept.filter(same) + rest.filter(same)).subrange(0, kept.filter(same).len() as int)
            =~= kept.filter(same));
    }
}

/// Compacting what is compacted already changes nothing.
pub proof fn lemma_compacted_twice(events: Seq<EventView>, max_lines: nat)
    ensures
        compacted(compacted(events, max_lines), max_lines) == compacted(events, max_lines),
{
    if events.len() > max_lines {
        lemma_most_recent(events, max_lines);
    }
}

/// Whether `a` goes before `b`, or ties with it, in the chosen order.
fn goes_before(a: &HistoryEvent, b: &HistoryEvent, newest_first: bool) -> (r: bool)
    ensures
        r == (if newest_first {
            newer_first()(a@, b@)
        } else {
            older_first()(a@, b@)
        }),
{
    if newest_first {
        a.timestamp >= b.timestamp
    } else {
        a.timestamp <= b.timestamp
    }
}

/// Orders events by time stamp, keeping events that share one in the order
/// in which they came.
pub fn sort_events(events: &Vec<HistoryEvent>, newest_first: bool) -> (sorted: Vec<HistoryEvent>)
    ensures
        events_view(sorted@) == stable_sort(
            events_view(events@),
            if newest_first {
                newer_first()
            } else {
                older_first()
            },
        ),
{
    let ghost le = if newest_first {
        newer_first()
    } else {
        older_first()
    };
    let ghost all = events_view(events@);
    let mut sorted: Vec<HistoryEvent> = Vec::new();
    let mut i: usize = 0;
    assert(all.take(0) =~= Seq::<EventView>::empty());
    assert(events_view(sorted@) =~= Seq::<EventView>::empty());
    while i < events.len()
        invariant
            i <= events.len(),
            all == events_view(events@),
            le == (if newest_first {
                newer_first()
            } else {
                older_first()
            }),
            events_view(sorted@) == stable_sort(all.take(i as int), le),
        decreases events.len() - i,
    {
        let ghost x = events[i as int]@;
        let ghost done = events_view(sorted@);
        let mut p: usize = sorted.len();
        assert(done.take(p as int) =~= done);
        while p > 0 && !goes_before(&sorted[p - 1], &events[i], newest_first)
            invariant
                p <= sorted.len(),
                i < events.len(),
                x == events[i as int]@,
                done == events_view(sorted@),
                le == (if newest_first {
                    newer_first()
                } else {
                    older_first()
                }),
                insert_point(done, x, le) == insert_point(done.take(p as int), x, le),
            decreases p,
        {
            assert(done.take(p as int).last() == sorted[p - 1]@);
            assert(done.take(p as int).drop_last() =~= done.take(p - 1));
            p = p - 1;
        }
        proof {
            if p > 0 {
                assert(done.take(p as int).last() == sorted[p - 1]@);
            }
            assert(insert_point(done, x, le) == p);
            assert(all.take(i + 1).drop_last() =~= all.take(i as int));
            assert(all.take(i + 1).last() == x);
        }
        sorted.insert(p, events[i].duplicate());
        assert(events_view(sorted@) =~= done.insert(p as int, x));
        i = i + 1;
    }
    assert(all.take(events.len() as int) =~= all);
    sorted
}

/// Compacts a list of events: while there are no more than `max_lines` they
/// stay as they are; beyond that only the latest `max_lines` stay, oldest first.
pub fn compact_events(events: &Vec<HistoryEvent>, max_lines: usize) -> (kept: Vec<HistoryEvent>)
    ensures
        events_view(kept@) == compacted(events_view(events@), max_lines as nat),
{
    if events.len() <= max_lines {
        let mut same: Vec<HistoryEvent> = Vec::new();
        let mut i: usize = 0;
        while i < events.len()
            invariant
                i <= events.len(),
                same.len() == i,
                forall|j: int| 0 <= j < i ==> same[j]@ == events[j]@,
            decreases events.len() - i,
        {
            same.push(events[i].duplicate());
            i = i + 1;
        }
        assert(events_view(same@) =~= events_view(events@));
        same
    } else {
        let mut ranked = sort_events(events, true);
        let ghost all_ranked = events_view(ranked@);
        proof {
            lemma_stable_sort_len(events_view(events@), newer_first());
            assert(all_ranked.len() == ranked.len());
        }
        ranked.truncate(max_lines);
        assert(events_view(ranked@) =~= all_ranked.take(max_lines as int));
        sort_events(&ranked, false)
    }
}

/// What to replace a ledger's content with, if anything: nothing while it
/// records no more than `max_lines` events, else the lines of the latest
/// `max_lines` events, oldest first.
pub fn trim_history(content: &str, max_lines: usize) -> (replacement: Option<String>)
    ensures
        ledger_events(content@).len() <= max_lines ==> replacement is None,
        ledger_events(content@).len() > max_lines ==> replacement is Some
            && replacement.unwrap()@ == render(most_recent(ledger_events(content@), max_lines as nat)),
{
    let events = parse_events(content);
    assert(events_view(events@).len() == events.len());
    if events.len() <= max_lines {
        return None;
    }
    let kept = compact_events(&events, max_lines);
    Some(render_events(&kept))
}

} // verus!
