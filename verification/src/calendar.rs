//! Calendar events and the reading of them from iCalendar text.

use vstd::prelude::*;
use vstd::slice::slice_subrange;
use vstd::string::*;

use crate::clock::{
    law_instant_is_only_reading, only_reading, parse_time, parsed_time, reads_back, shown_once,
    zone_instant, zone_known, Moment, WallTime, Zone,
};
use crate::text::{
    begins_with, chars_of, find, holds_at, law_begins_with, law_find_first, law_lines_concat,
    law_lines_read_back, law_occurs_at, law_one_line, law_prefixes_removed, lemma_find_from, lines,
    occurs_at, position, string_of, strip_prefixes, without_prefixes, without_return, written,
};

verus! {

/// A point in time together with the zone it was given in.
#[derive(Debug)]
pub struct ZonedTime {
    /// The point in time.
    pub at: Moment,
    /// The zone it was given in.
    pub zone: Zone,
}

/// An event of a calendar.
#[derive(Debug)]
pub struct CalendarEvent {
    /// What the event is called.
    pub summary: String,
    /// When it starts.
    pub start: ZonedTime,
    /// When it ends.
    pub end: ZonedTime,
    /// Whether it repeats.
    pub recurring: bool,
}

/// What a [`ZonedTime`] stands for.
#[verifier::ext_equal]
pub struct ZonedView {
    pub at: Moment,
    pub zone: Seq<char>,
}

/// What a [`CalendarEvent`] stands for.
#[verifier::ext_equal]
pub struct EventView {
    pub summary: Seq<char>,
    pub start: ZonedView,
    pub end: ZonedView,
    pub recurring: bool,
}

impl View for ZonedTime {
    type V = ZonedView;

    open spec fn view(&self) -> ZonedView {
        ZonedView { at: self.at, zone: self.zone@ }
    }
}

impl View for CalendarEvent {
    type V = EventView;

    open spec fn view(&self) -> EventView {
        EventView {
            summary: self.summary@,
            start: self.start@,
            end: self.end@,
            recurring: self.recurring,
        }
    }
}

impl EventView {
    /// Both ends are representable points in time.
    pub open spec fn valid(self) -> bool {
        self.start.at.valid() && self.end.at.valid()
    }
}

/// A zone name and a time, as a property line gives them.
#[derive(Debug)]
pub struct ZonedText {
    /// What stands between `TZID=` and the next colon.
    pub zone: String,
    /// What stands after that colon.
    pub time: String,
}

impl View for ZonedText {
    type V = (Seq<char>, Seq<char>);

    open spec fn view(&self) -> (Seq<char>, Seq<char>) {
        (self.zone@, self.time@)
    }
}

/// The properties of an event that its text gives.
#[derive(Debug)]
pub struct EventText {
    /// The summary, if any.
    pub summary: Option<String>,
    /// The zoned start, if any.
    pub start: Option<ZonedText>,
    /// The zoned end, if any.
    pub end: Option<ZonedText>,
    /// Whether there is a recurrence rule.
    pub recurring: bool,
}

/// The summary that a line gives: what follows the property name, which may be repeated.
pub open spec fn summary_in(line: Seq<char>) -> Option<Seq<char>> {
    if begins_with(line, "SUMMARY:"@) {
        Some(without_prefixes(line, "SUMMARY:"@))
    } else {
        None
    }
}

/// The zone name and the time that a line of the property `name` gives: what stands between the
/// first `TZID=` and the next colon, and what follows that colon.
pub open spec fn zoned_in(line: Seq<char>, name: Seq<char>) -> Option<(Seq<char>, Seq<char>)> {
    if !begins_with(line, name) {
        None
    } else {
        match find(line, "TZID="@) {
            None => None,
            Some(mark) => {
                let rest = line.skip(mark + 5);
                match find(rest, ":"@) {
                    None => None,
                    Some(colon) => Some((rest.take(colon), rest.skip(colon + 1))),
                }
            },
        }
    }
}

/// The summary of the last line that gives one.
pub open spec fn last_summary(lines: Seq<Seq<char>>) -> Option<Seq<char>>
    decreases lines.len(),
{
    if lines.len() == 0 {
        None
    } else if summary_in(lines.last()) is Some {
        summary_in(lines.last())
    } else {
        last_summary(lines.drop_last())
    }
}

/// The zone name and the time of the last line of the property `name` that gives them.
pub open spec fn last_zoned(lines: Seq<Seq<char>>, name: Seq<char>) -> Option<
    (Seq<char>, Seq<char>),
>
    decreases lines.len(),
{
    if lines.len() == 0 {
        None
    } else if zoned_in(lines.last(), name) is Some {
        zoned_in(lines.last(), name)
    } else {
        last_zoned(lines.drop_last(), name)
    }
}

/// Whether some line is a recurrence rule.
pub open spec fn has_rule(lines: Seq<Seq<char>>) -> bool {
    exists|i: int| 0 <= i < lines.len() && begins_with(#[trigger] lines[i], "RRULE:"@)
}

/// The point in time that a zone name and a time in the form `%Y%m%dT%H%M%S` stand for. There is
/// one where the time can be read, the zone is known, and its wall clocks show that time once.
pub open spec fn zoned_moment(zone: Seq<char>, time: Seq<char>) -> Option<ZonedView> {
    match parsed_time(time, "%Y%m%dT%H%M%S"@) {
        None => None,
        Some((secs, nanos)) => if zone_known(zone) {
            match zone_instant(zone, secs) {
                None => None,
                Some(at) => Some(ZonedView { at: Moment { secs: at, nanos }, zone }),
            }
        } else {
            None
        },
    }
}

/// Whether a point in time is the only one at which the wall clocks of its zone show what a zone
/// name and a time in the form `%Y%m%dT%H%M%S` say.
pub open spec fn reads_as(found: ZonedView, given: (Seq<char>, Seq<char>)) -> bool {
    &&& found.zone == given.0
    &&& parsed_time(given.1, "%Y%m%dT%H%M%S"@) matches Some((secs, nanos))
    &&& only_reading(found.zone, found.at.secs, secs)
    &&& found.at.nanos == nanos
}

/// As [`zoned_moment`], of a zone name and a time that may be missing.
pub open spec fn given_moment(given: Option<(Seq<char>, Seq<char>)>) -> Option<ZonedView> {
    match given {
        None => None,
        Some((zone, time)) => zoned_moment(zone, time),
    }
}

/// Whether a zone name and a time in the form `%Y%m%dT%H%M%S` are there, the time can be read, the
/// zone is known, and its wall clocks show that time exactly once.
pub open spec fn comes_once(given: Option<(Seq<char>, Seq<char>)>) -> bool {
    &&& given matches Some((zone, time))
    &&& parsed_time(time, "%Y%m%dT%H%M%S"@) matches Some((secs, _))
    &&& zone_known(zone)
    &&& shown_once(zone, secs)
}

/// The event of the given parts, if none is missing.
pub open spec fn whole_event(
    summary: Option<Seq<char>>,
    start: Option<ZonedView>,
    end: Option<ZonedView>,
    recurring: bool,
) -> Option<EventView> {
    match (summary, start, end) {
        (Some(summary), Some(start), Some(end)) => Some(
            EventView { summary, start, end, recurring },
        ),
        _ => None,
    }
}

/// The event that the lines of a text describe.
pub open spec fn event_of(lines: Seq<Seq<char>>) -> Option<EventView> {
    whole_event(
        last_summary(lines),
        given_moment(last_zoned(lines, "DTSTART"@)),
        given_moment(last_zoned(lines, "DTEND"@)),
        has_rule(lines),
    )
}

/// The event that a text describes.
pub open spec fn event_in(text: Seq<char>) -> Option<EventView> {
    event_of(lines(text))
}

/// What an optional value stands for.
pub open spec fn seen<T: View>(value: Option<T>) -> Option<T::V> {
    match value {
        None => None,
        Some(v) => Some(v@),
    }
}

/// Whether a run of characters begins with a literal.
fn starts_with(s: &[char], prefix: &str) -> (r: bool)
    ensures
        r == begins_with(s@, prefix@),
{
    let pat: Vec<char> = chars_of(prefix);
    holds_at(s, pat.as_slice(), 0)
}

/// Reads the summary that a line gives.
fn read_summary(line: &[char]) -> (r: Option<String>)
    ensures
        seen(r) == summary_in(line@),
{
    if starts_with(line, "SUMMARY:") {
        let pat: Vec<char> = chars_of("SUMMARY:");
        proof {
            reveal_strlit("SUMMARY:");
        }
        Some(string_of(strip_prefixes(line, pat.as_slice())))
    } else {
        None
    }
}

/// Reads the zone name and the time that a line of the property `name` gives.
fn read_zoned(line: &[char], name: &str) -> (r: Option<ZonedText>)
    ensures
        seen(r) == zoned_in(line@, name@),
{
    if !starts_with(line, name) {
        return None;
    }
    let size: usize = line.len();
    let mark_text: Vec<char> = chars_of("TZID=");
    let colon_text: Vec<char> = chars_of(":");
    proof {
        reveal_strlit("TZID=");
        reveal_strlit(":");
        lemma_find_from(line@, "TZID="@, 0);
    }
    match position(line, mark_text.as_slice()) {
        None => None,
        Some(mark) => {
            let rest = slice_subrange(line, mark + 5, size);
            assert(rest@ == line@.skip(mark + 5));
            proof {
                lemma_find_from(rest@, ":"@, 0);
            }
            match position(rest, colon_text.as_slice()) {
                None => None,
                Some(colon) => {
                    let zone = slice_subrange(rest, 0, colon);
                    let time = slice_subrange(rest, colon + 1, rest.len());
                    assert(zone@ == rest@.take(colon as int));
                    assert(time@ == rest@.skip(colon + 1));
                    Some(ZonedText { zone: string_of(zone), time: string_of(time) })
                },
            }
        },
    }
}

/// Where the lines of a text split: the first line and the lines after it.
proof fn lemma_first_line(s: Seq<char>)
    requires
        s.len() > 0,
    ensures
        match find(s, seq!['\n']) {
            None => lines(s) == seq![s],
            Some(k) => {
                &&& 0 <= k < s.len()
                &&& lines(s) == seq![without_return(s.take(k))] + lines(s.skip(k + 1))
            },
        },
{
    lemma_find_from(s, seq!['\n'], 0);
}

/// What the lines up to and including `line` give.
proof fn lemma_one_more_line(done: Seq<Seq<char>>, line: Seq<char>)
    ensures
        last_summary(done.push(line)) == (if summary_in(line) is Some {
            summary_in(line)
        } else {
            last_summary(done)
        }),
        last_zoned(done.push(line), "DTSTART"@) == (if zoned_in(line, "DTSTART"@) is Some {
            zoned_in(line, "DTSTART"@)
        } else {
            last_zoned(done, "DTSTART"@)
        }),
        last_zoned(done.push(line), "DTEND"@) == (if zoned_in(line, "DTEND"@) is Some {
            zoned_in(line, "DTEND"@)
        } else {
            last_zoned(done, "DTEND"@)
        }),
        has_rule(done.push(line)) == (begins_with(line, "RRULE:"@) || has_rule(done)),
{
    let all = done.push(line);
    assert(all.drop_last() == done);
    assert(all.last() == line);
    if begins_with(line, "RRULE:"@) {
        assert(begins_with(all[done.len() as int], "RRULE:"@));
    }
    if has_rule(done) {
        let i = choose|i: int| 0 <= i < done.len() && begins_with(#[trigger] done[i], "RRULE:"@);
        assert(begins_with(all[i], "RRULE:"@));
    }
    if has_rule(all) {
        let i = choose|i: int| 0 <= i < all.len() && begins_with(#[trigger] all[i], "RRULE:"@);
        assert(i < done.len() ==> begins_with(done[i], "RRULE:"@));
    }
}

/// Takes from a line whatever property it gives; a later line prevails over an earlier one.
fn read_line(found: EventText, line: &[char]) -> (r: EventText)
    ensures
        seen(r.summary) == (if summary_in(line@) is Some {
            summary_in(line@)
        } else {
            seen(found.summary)
        }),
        seen(r.start) == (if zoned_in(line@, "DTSTART"@) is Some {
            zoned_in(line@, "DTSTART"@)
        } else {
            seen(found.start)
        }),
        seen(r.end) == (if zoned_in(line@, "DTEND"@) is Some {
            zoned_in(line@, "DTEND"@)
        } else {
            seen(found.end)
        }),
        r.recurring == (begins_with(line@, "RRULE:"@) || found.recurring),
{
    let mut r = found;
    let summary = read_summary(line);
    if summary.is_some() {
        r.summary = summary;
    }
    let start = read_zoned(line, "DTSTART");
    if start.is_some() {
        r.start = start;
    }
    let end = read_zoned(line, "DTEND");
    if end.is_some() {
        r.end = end;
    }
    if starts_with(line, "RRULE:") {
        r.recurring = true;
    }
    r
}

/// Reads the properties that the lines of a text give.
pub fn scan_event(ical: &str) -> (r: EventText)
    ensures
        seen(r.summary) == last_summary(lines(ical@)),
        seen(r.start) == last_zoned(lines(ical@), "DTSTART"@),
        seen(r.end) == last_zoned(lines(ical@), "DTEND"@),
        r.recurring == has_rule(lines(ical@)),
{
    let all: Vec<char> = chars_of(ical);
    let feed: Vec<char> = vec!['\n'];
    let size: usize = all.len();
    let mut found = EventText { summary: None, start: None, end: None, recurring: false };
    let mut at: usize = 0;
    let ghost mut done: Seq<Seq<char>> = seq![];
    proof {
        assert(ical@.skip(0) == ical@);
        assert(done + lines(ical@) == lines(ical@));
    }
    while at < size
        invariant
            all@ == ical@,
            size == all@.len(),
            feed@ == seq!['\n'],
            at <= size,
            lines(ical@) == done + lines(ical@.skip(at as int)),
            seen(found.summary) == last_summary(done),
            seen(found.start) == last_zoned(done, "DTSTART"@),
            seen(found.end) == last_zoned(done, "DTEND"@),
            found.recurring == has_rule(done),
        decreases size - at,
    {
        let rest = slice_subrange(all.as_slice(), at, size);
        assert(rest@ == ical@.skip(at as int));
        proof {
            lemma_first_line(rest@);
        }
        match position(rest, feed.as_slice()) {
            None => {
                found = read_line(found, rest);
                proof {
                    lemma_one_more_line(done, rest@);
                    done = done.push(rest@);
                    assert(ical@.skip(size as int) == Seq::<char>::empty());
                }
                at = size;
            },
            Some(k) => {
                let mut end: usize = k;
                if k > 0 && rest[k - 1] == '\r' {
                    end = k - 1;
                }
                let line = slice_subrange(rest, 0, end);
                assert(line@ == without_return(rest@.take(k as int)));
                found = read_line(found, line);
                proof {
                    lemma_one_more_line(done, line@);
                    assert(rest@.skip(k + 1) == ical@.skip(at + k + 1));
                    assert(done + (seq![line@] + lines(ical@.skip(at + k + 1))) == done.push(line@)
                        + lines(ical@.skip(at + k + 1)));
                    done = done.push(line@);
                }
                at = at + k + 1;
            },
        }
    }
    assert(ical@.skip(size as int) == Seq::<char>::empty());
    assert(done + lines(ical@.skip(size as int)) == done);
    found
}

/// The point in time that a zone name and a time stand for.
pub fn resolve(given: &ZonedText) -> (r: Option<ZonedTime>)
    ensures
        seen(r) == zoned_moment(given.zone@, given.time@),
        r is Some <==> comes_once(Some(given@)),
        reads_back(given.time@),
        r matches Some(t) ==> t.at.valid() && reads_as(t@, given@),
        r matches Some(t) ==> {
            let (secs, nanos) = parsed_time(given.time@, "%Y%m%dT%H%M%S"@)->0;
            &&& t.zone@ == given.zone@
            &&& only_reading(given.zone@, t.at.secs, secs)
            &&& t.at.nanos == nanos
        },
{
    let wall: WallTime = parse_time(given.time.as_str(), "%Y%m%dT%H%M%S")?;
    let zone: Zone = Zone::parse(given.zone.as_str())?;
    let at: Moment = zone.single(wall)?;
    Some(ZonedTime { at, zone })
}

/// Puts an event together from its parts; there is one only if no part is missing.
pub fn assemble_event(
    summary: Option<String>,
    start: Option<ZonedTime>,
    end: Option<ZonedTime>,
    recurring: bool,
) -> (r: Option<CalendarEvent>)
    ensures
        seen(r) == whole_event(seen(summary), seen(start), seen(end), recurring),
        r is Some <==> summary is Some && start is Some && end is Some,
        r matches Some(e) ==> {
            &&& e.summary@ == (summary->0)@
            &&& e.start.at == (start->0).at
            &&& e.start.zone@ == (start->0).zone@
            &&& e.end.at == (end->0).at
            &&& e.end.zone@ == (end->0).zone@
            &&& e.recurring == recurring
        },
{
    match (summary, start, end) {
        (Some(summary), Some(start), Some(end)) => Some(
            CalendarEvent { summary, start, end, recurring },
        ),
        _ => None,
    }
}

/// Reads an event from iCalendar text. There is one exactly if the text gives a summary, and a
/// start and an end that carry a `TZID` and that the wall clocks of their zones show once each. On
/// these wall clocks they read as the text says.
pub fn parse_event(ical: &str) -> (r: Option<CalendarEvent>)
    ensures
        seen(r) == event_in(ical@),
        r is Some <==> {
            &&& last_summary(lines(ical@)) is Some
            &&& comes_once(last_zoned(lines(ical@), "DTSTART"@))
            &&& comes_once(last_zoned(lines(ical@), "DTEND"@))
        },
        last_zoned(lines(ical@), "DTSTART"@) matches Some((_, time)) ==> reads_back(time),
        last_zoned(lines(ical@), "DTEND"@) matches Some((_, time)) ==> reads_back(time),
        r matches Some(e) ==> {
            &&& e@.valid()
            &&& reads_as(e@.start, last_zoned(lines(ical@), "DTSTART"@)->0)
            &&& reads_as(e@.end, last_zoned(lines(ical@), "DTEND"@)->0)
        },
        r matches Some(e) ==> {
            let (start_zone, start_time) = last_zoned(lines(ical@), "DTSTART"@)->0;
            let (end_zone, end_time) = last_zoned(lines(ical@), "DTEND"@)->0;
            let start = parsed_time(start_time, "%Y%m%dT%H%M%S"@)->0;
            let end = parsed_time(end_time, "%Y%m%dT%H%M%S"@)->0;
            &&& Some(e.summary@) == last_summary(lines(ical@))
            &&& e.recurring == has_rule(lines(ical@))
            &&& e.start.zone@ == start_zone
            &&& only_reading(start_zone, e.start.at.secs, start.0)
            &&& e.start.at.nanos == start.1
            &&& e.end.zone@ == end_zone
            &&& only_reading(end_zone, e.end.at.secs, end.0)
            &&& e.end.at.nanos == end.1
        },
{
    let found = scan_event(ical);
    let start = match &found.start {
        None => None,
        Some(given) => resolve(given),
    };
    let end = match &found.end {
        None => None,
        Some(given) => resolve(given),
    };
    assemble_event(found.summary, start, end, found.recurring)
}

/// Whether two lists of lines give the same properties.
pub open spec fn same_properties(a: Seq<Seq<char>>, b: Seq<Seq<char>>) -> bool {
    &&& last_summary(a) == last_summary(b)
    &&& last_zoned(a, "DTSTART"@) == last_zoned(b, "DTSTART"@)
    &&& last_zoned(a, "DTEND"@) == last_zoned(b, "DTEND"@)
    &&& has_rule(a) == has_rule(b)
}

/// Lists that give the same properties still do so with the same lines after them.
proof fn lemma_same_properties_extend(
    a: Seq<Seq<char>>,
    b: Seq<Seq<char>>,
    after: Seq<Seq<char>>,
)
    requires
        same_properties(a, b),
    ensures
        same_properties(a + after, b + after),
    decreases after.len(),
{
    if after.len() == 0 {
        assert(a + after == a);
        assert(b + after == b);
    } else {
        let front = after.drop_last();
        lemma_same_properties_extend(a, b, front);
        lemma_one_more_line(a + front, after.last());
        lemma_one_more_line(b + front, after.last());
        assert((a + front).push(after.last()) == a + after);
        assert((b + front).push(after.last()) == b + after);
    }
}

/// A line that gives no summary, no zoned start or end and no recurrence rule makes no difference.
pub proof fn law_other_lines_ignored(
    before: Seq<Seq<char>>,
    line: Seq<char>,
    after: Seq<Seq<char>>,
)
    requires
        summary_in(line) is None,
        zoned_in(line, "DTSTART"@) is None,
        zoned_in(line, "DTEND"@) is None,
        !begins_with(line, "RRULE:"@),
    ensures
        event_of(before.push(line) + after) == event_of(before + after),
{
    lemma_one_more_line(before, line);
    lemma_same_properties_extend(before.push(line), before, after);
}

/// The order of two neighbouring lines makes no difference unless both give a summary, both a
/// zoned start, or both a zoned end.
pub proof fn law_order_of_properties(
    before: Seq<Seq<char>>,
    a: Seq<char>,
    b: Seq<char>,
    after: Seq<Seq<char>>,
)
    requires
        summary_in(a) is None || summary_in(b) is None,
        zoned_in(a, "DTSTART"@) is None || zoned_in(b, "DTSTART"@) is None,
        zoned_in(a, "DTEND"@) is None || zoned_in(b, "DTEND"@) is None,
    ensures
        event_of(before.push(a).push(b) + after) == event_of(before.push(b).push(a) + after),
{
    lemma_one_more_line(before, a);
    lemma_one_more_line(before, b);
    lemma_one_more_line(before.push(a), b);
    lemma_one_more_line(before.push(b), a);
    lemma_same_properties_extend(before.push(a).push(b), before.push(b).push(a), after);
}

/// A line of a text that gives no summary, no zoned start or end and no recurrence rule makes no
/// difference, whether it ends with a line feed or with a carriage return and a line feed.
pub proof fn law_other_text_ignored(before: Seq<char>, line: Seq<char>, after: Seq<char>)
    requires
        before.len() == 0 || before.last() == '\n',
        !line.contains('\n'),
        summary_in(without_return(line)) is None,
        zoned_in(without_return(line), "DTSTART"@) is None,
        zoned_in(without_return(line), "DTEND"@) is None,
        !begins_with(without_return(line), "RRULE:"@),
    ensures
        event_in(before + line.push('\n') + after) == event_in(before + after),
{
    lemma_lines_around(before, line, after);
    law_lines_concat(before, after);
    law_other_lines_ignored(lines(before), without_return(line), lines(after));
}

/// The order of two neighbouring lines of a text makes no difference unless both give a summary,
/// both a zoned start, or both a zoned end.
pub proof fn law_order_in_text(before: Seq<char>, a: Seq<char>, b: Seq<char>, after: Seq<char>)
    requires
        before.len() == 0 || before.last() == '\n',
        !a.contains('\n'),
        !b.contains('\n'),
        summary_in(without_return(a)) is None || summary_in(without_return(b)) is None,
        zoned_in(without_return(a), "DTSTART"@) is None || zoned_in(
            without_return(b),
            "DTSTART"@,
        ) is None,
        zoned_in(without_return(a), "DTEND"@) is None || zoned_in(
            without_return(b),
            "DTEND"@,
        ) is None,
    ensures
        event_in(before + a.push('\n') + b.push('\n') + after) == event_in(
            before + b.push('\n') + a.push('\n') + after,
        ),
{
    lemma_lines_around(before, a, seq![]);
    lemma_lines_around(before, b, seq![]);
    assert(before + a.push('\n') + seq![] == before + a.push('\n'));
    assert(before + b.push('\n') + seq![] == before + b.push('\n'));
    lemma_lines_around(before + a.push('\n'), b, after);
    lemma_lines_around(before + b.push('\n'), a, after);
    assert(lines(seq![]) == Seq::<Seq<char>>::empty());
    assert(lines(before + a.push('\n')) == lines(before).push(without_return(a)));
    assert(lines(before + b.push('\n')) == lines(before).push(without_return(b)));
    law_order_of_properties(lines(before), without_return(a), without_return(b), lines(after));
}

/// The lines of a text with a line in the middle.
proof fn lemma_lines_around(before: Seq<char>, line: Seq<char>, after: Seq<char>)
    requires
        before.len() == 0 || before.last() == '\n',
        !line.contains('\n'),
    ensures
        lines(before + line.push('\n') + after) == lines(before).push(without_return(line))
            + lines(after),
{
    let text = line.push('\n');
    law_one_line(line);
    law_lines_concat(before, text);
    assert((before + text).last() == '\n');
    law_lines_concat(before + text, after);
    assert(lines(before) + seq![without_return(line)] == lines(before).push(without_return(line)));
}

/// Where several lines give a summary, the last of them prevails.
pub proof fn law_last_summary_prevails(
    before: Seq<Seq<char>>,
    line: Seq<char>,
    after: Seq<Seq<char>>,
)
    requires
        summary_in(line) is Some,
        forall|i: int| 0 <= i < after.len() ==> summary_in(#[trigger] after[i]) is None,
    ensures
        last_summary(before.push(line) + after) == summary_in(line),
    decreases after.len(),
{
    if after.len() == 0 {
        assert(before.push(line) + after == before.push(line));
        lemma_one_more_line(before, line);
    } else {
        let front = after.drop_last();
        assert(summary_in(after[after.len() - 1]) is None);
        assert forall|i: int| 0 <= i < front.len() implies summary_in(
            #[trigger] front[i],
        ) is None by {
            assert(summary_in(after[i]) is None);
        }
        law_last_summary_prevails(before, line, front);
        lemma_one_more_line(before.push(line) + front, after.last());
        assert((before.push(line) + front).push(after.last()) == before.push(line) + after);
    }
}

/// Where several lines give a zoned value of a property, the last of them prevails.
pub proof fn law_last_zoned_prevails(
    before: Seq<Seq<char>>,
    line: Seq<char>,
    after: Seq<Seq<char>>,
    name: Seq<char>,
)
    requires
        zoned_in(line, name) is Some,
        forall|i: int| 0 <= i < after.len() ==> zoned_in(#[trigger] after[i], name) is None,
    ensures
        last_zoned(before.push(line) + after, name) == zoned_in(line, name),
    decreases after.len(),
{
    if after.len() == 0 {
        assert(before.push(line) + after == before.push(line));
        assert(before.push(line).drop_last() == before);
    } else {
        let front = after.drop_last();
        let all = before.push(line) + after;
        assert(zoned_in(after[after.len() - 1], name) is None);
        assert forall|i: int| 0 <= i < front.len() implies zoned_in(
            #[trigger] front[i],
            name,
        ) is None by {
            assert(zoned_in(after[i], name) is None);
        }
        law_last_zoned_prevails(before, line, front, name);
        assert(all.drop_last() == before.push(line) + front);
        assert(all.last() == after.last());
    }
}

/// A text with a recurrence rule anywhere describes a recurring event, and only such a text does.
pub proof fn law_recurring_iff_rule(text: Seq<char>)
    requires
        event_in(text) is Some,
    ensures
        (event_in(text)->0).recurring <==> has_rule(lines(text)),
{
}

/// A summary line gives all that follows the property name. Where the name is repeated, the line
/// gives what it would give without the first copy. No other line gives a summary.
pub proof fn law_summary_line(summary: Seq<char>, line: Seq<char>)
    ensures
        !begins_with(summary, "SUMMARY:"@) ==> summary_in("SUMMARY:"@ + summary) == Some(summary),
        begins_with(summary, "SUMMARY:"@) ==> summary_in("SUMMARY:"@ + summary) == summary_in(
            summary,
        ),
        summary_in(line) is Some <==> exists|rest: Seq<char>| line == "SUMMARY:"@ + rest,
{
    reveal_strlit("SUMMARY:");
    law_begins_with("SUMMARY:"@, summary, line);
    law_prefixes_removed(summary, "SUMMARY:"@);
}

/// A property line gives the zone name that stands between its first `TZID=` and the next colon,
/// and all that follows that colon.
pub proof fn law_zoned_line(head: Seq<char>, zone: Seq<char>, time: Seq<char>, name: Seq<char>)
    requires
        begins_with(head + "TZID="@ + zone + ":"@ + time, name),
        forall|i: int|
            0 <= i < head.len() ==> !occurs_at(
                head + "TZID="@ + zone + ":"@ + time,
                "TZID="@,
                i,
            ),
        !zone.contains(':'),
    ensures
        zoned_in(head + "TZID="@ + zone + ":"@ + time, name) == Some((zone, time)),
{
    reveal_strlit("TZID=");
    reveal_strlit(":");
    let line = head + "TZID="@ + zone + ":"@ + time;
    let rest = zone + ":"@ + time;
    let mark = head.len() as int;
    let colon = zone.len() as int;
    law_occurs_at(head, "TZID="@, rest, line, mark);
    assert(line == head + "TZID="@ + rest);
    law_find_first(line, "TZID="@, mark);
    assert(line.skip(mark + 5) == rest);
    law_occurs_at(zone, ":"@, time, rest, colon);
    assert forall|i: int| 0 <= i < colon implies !occurs_at(rest, ":"@, i) by {
        if occurs_at(rest, ":"@, i) {
            assert(rest.subrange(i, i + 1)[0] == ':');
            assert(zone[i] == ':');
        }
    }
    law_find_first(rest, ":"@, colon);
    assert(rest.take(colon) == zone);
    assert(rest.skip(colon + 1) == time);
}

/// A line that gives a zone name and a time is a line of that property and holds them, the zone
/// name without a colon, after its first `TZID=`.
pub proof fn law_zoned_line_holds(line: Seq<char>, name: Seq<char>) -> (head: Seq<char>)
    requires
        zoned_in(line, name) is Some,
    ensures
        begins_with(line, name),
        ({
            let (zone, time) = zoned_in(line, name)->0;
            line == head + "TZID="@ + zone + ":"@ + time && !zone.contains(':')
        }),
        forall|i: int| 0 <= i < head.len() ==> !occurs_at(line, "TZID="@, i),
{
    let mark = find(line, "TZID="@)->0;
    let rest = line.skip(mark + 5);
    let colon = find(rest, ":"@)->0;
    let head = line.take(mark);
    let zone = rest.take(colon);
    let time = rest.skip(colon + 1);
    assert(line == head + "TZID="@ + rest) by {
        reveal_strlit("TZID=");
        lemma_cut(line, "TZID="@);
    }
    assert(rest == zone + ":"@ + time && !zone.contains(':')) by {
        reveal_strlit(":");
        lemma_cut(rest, ":"@);
        if zone.contains(':') {
            let i = choose|i: int| 0 <= i < zone.len() && zone[i] == ':';
            assert(rest.subrange(i, i + 1) == ":"@);
            assert(occurs_at(rest, ":"@, i));
        }
    }
    assert(head + "TZID="@ + (zone + ":"@ + time) == head + "TZID="@ + zone + ":"@ + time);
    lemma_cut(line, "TZID="@);
    head
}

/// Where a text is found, it can be cut out, and it stands nowhere before.
proof fn lemma_cut(s: Seq<char>, pat: Seq<char>)
    requires
        find(s, pat) is Some,
    ensures
        ({
            let k = find(s, pat)->0;
            &&& 0 <= k <= s.len() - pat.len()
            &&& s == s.take(k) + pat + s.skip(k + pat.len())
            &&& forall|i: int| 0 <= i < k ==> !occurs_at(s, pat, i)
        }),
{
    let k = find(s, pat)->0;
    law_find_first(s, pat, k);
    law_occurs_at(seq![], pat, seq![], s, k);
}

/// Lines none of which gives a summary give none.
pub proof fn law_no_summary(all: Seq<Seq<char>>)
    requires
        forall|i: int| 0 <= i < all.len() ==> summary_in(#[trigger] all[i]) is None,
    ensures
        last_summary(all) is None,
    decreases all.len(),
{
    if all.len() > 0 {
        let front = all.drop_last();
        assert(summary_in(all[all.len() - 1]) is None);
        assert forall|i: int| 0 <= i < front.len() implies summary_in(
            #[trigger] front[i],
        ) is None by {
            assert(summary_in(all[i]) is None);
        }
        law_no_summary(front);
    }
}

/// Lines none of which gives a zoned value of a property give none.
pub proof fn law_no_zoned(all: Seq<Seq<char>>, name: Seq<char>)
    requires
        forall|i: int| 0 <= i < all.len() ==> zoned_in(#[trigger] all[i], name) is None,
    ensures
        last_zoned(all, name) is None,
    decreases all.len(),
{
    if all.len() > 0 {
        let front = all.drop_last();
        assert(zoned_in(all[all.len() - 1], name) is None);
        assert forall|i: int| 0 <= i < front.len() implies zoned_in(
            #[trigger] front[i],
            name,
        ) is None by {
            assert(zoned_in(all[i], name) is None);
        }
        law_no_zoned(front, name);
    }
}

/// There is a recurrence rule exactly if some line is `RRULE:` and something after it.
pub proof fn law_rule_line(all: Seq<Seq<char>>)
    ensures
        has_rule(all) <==> exists|i: int, rest: Seq<char>|
            0 <= i < all.len() && #[trigger] all[i] == #[trigger] ("RRULE:"@ + rest),
{
    if has_rule(all) {
        let i = choose|i: int| 0 <= i < all.len() && begins_with(#[trigger] all[i], "RRULE:"@);
        law_begins_with("RRULE:"@, seq![], all[i]);
        let rest = all[i].skip("RRULE:"@.len() as int);
        assert(all[i] == "RRULE:"@ + rest);
    }
    if exists|i: int, rest: Seq<char>|
        0 <= i < all.len() && #[trigger] all[i] == #[trigger] ("RRULE:"@ + rest) {
        let (i, rest) = choose|i: int, rest: Seq<char>|
            0 <= i < all.len() && #[trigger] all[i] == #[trigger] ("RRULE:"@ + rest);
        law_begins_with("RRULE:"@, rest, all[i]);
        assert(begins_with(all[i], "RRULE:"@));
    }
}

/// A text describes an event exactly if the event has the summary that the text gives last, recurs
/// as the text says, and starts and ends at the only points in time at which the wall clocks of
/// the zones that the text names show the times that it gives.
pub proof fn law_event_described(text: Seq<char>, event: EventView)
    ensures
        event_in(text) == Some(event) <==> {
            &&& last_summary(lines(text)) == Some(event.summary)
            &&& event.recurring == has_rule(lines(text))
            &&& last_zoned(lines(text), "DTSTART"@) matches Some((zone, time)) && {
                &&& zone_known(zone)
                &&& event.start.zone == zone
                &&& parsed_time(time, "%Y%m%dT%H%M%S"@) matches Some((secs, nanos)) && {
                    &&& event.start.at.nanos == nanos
                    &&& only_reading(zone, event.start.at.secs, secs)
                }
            }
            &&& last_zoned(lines(text), "DTEND"@) matches Some((zone, time)) && {
                &&& zone_known(zone)
                &&& event.end.zone == zone
                &&& parsed_time(time, "%Y%m%dT%H%M%S"@) matches Some((secs, nanos)) && {
                    &&& event.end.at.nanos == nanos
                    &&& only_reading(zone, event.end.at.secs, secs)
                }
            }
        },
{
    let start = last_zoned(lines(text), "DTSTART"@);
    let end = last_zoned(lines(text), "DTEND"@);
    lemma_given_moment(start, event.start);
    lemma_given_moment(end, event.end);
}

/// What a zone name and a time stand for.
proof fn lemma_given_moment(given: Option<(Seq<char>, Seq<char>)>, found: ZonedView)
    ensures
        given_moment(given) == Some(found) <==> {
            &&& given matches Some((zone, time))
            &&& zone_known(zone)
            &&& found.zone == zone
            &&& parsed_time(time, "%Y%m%dT%H%M%S"@) matches Some((secs, nanos))
            &&& found.at.nanos == nanos
            &&& only_reading(zone, found.at.secs, secs)
        },
{
    if let Some((zone, time)) = given {
        if let Some((secs, nanos)) = parsed_time(time, "%Y%m%dT%H%M%S"@) {
            law_instant_is_only_reading(zone, found.at.secs, secs);
        }
    }
}

/// An event that is written out is read as it was written: the lines of its summary, its start and
/// its end may stand anywhere among other lines, and it recurs exactly if one of these is a
/// recurrence rule.
pub proof fn law_written_event_is_read(
    all: Seq<Seq<char>>,
    ending: Seq<char>,
    at: (int, int, int),
    start: (Seq<char>, Seq<char>),
    end: (Seq<char>, Seq<char>),
    event: EventView,
)
    requires
        ending == seq!['\n'] || ending == seq!['\r', '\n'],
        forall|i: int, j: int|
            0 <= i < all.len() && 0 <= j < all[i].len() ==> #[trigger] all[i][j] != '\n',
        forall|i: int|
            0 <= i < all.len() && (#[trigger] all[i]).len() > 0 ==> all[i].last() != '\r',
        0 <= at.0 < all.len(),
        0 <= at.1 < all.len(),
        0 <= at.2 < all.len(),
        all[at.0] == "SUMMARY:"@ + event.summary,
        all[at.1] == "DTSTART;"@ + "TZID="@ + start.0 + ":"@ + start.1,
        all[at.2] == "DTEND;"@ + "TZID="@ + end.0 + ":"@ + end.1,
        forall|i: int|
            0 <= i < all.len() && i != at.0 ==> !begins_with(#[trigger] all[i], "SUMMARY:"@),
        forall|i: int|
            0 <= i < all.len() && i != at.1 ==> !begins_with(#[trigger] all[i], "DTSTART"@),
        forall|i: int|
            0 <= i < all.len() && i != at.2 ==> !begins_with(#[trigger] all[i], "DTEND"@),
        !begins_with(event.summary, "SUMMARY:"@),
        !start.0.contains(':'),
        !end.0.contains(':'),
        zone_known(start.0),
        zone_known(end.0),
        parsed_time(start.1, "%Y%m%dT%H%M%S"@) matches Some((secs, nanos)) && only_reading(
            start.0,
            event.start.at.secs,
            secs,
        ) && event.start.at.nanos == nanos,
        parsed_time(end.1, "%Y%m%dT%H%M%S"@) matches Some((secs, nanos)) && only_reading(
            end.0,
            event.end.at.secs,
            secs,
        ) && event.end.at.nanos == nanos,
        event.start.zone == start.0,
        event.end.zone == end.0,
        event.recurring <==> exists|i: int, rest: Seq<char>|
            0 <= i < all.len() && #[trigger] all[i] == #[trigger] ("RRULE:"@ + rest),
    ensures
        event_in(written(all, ending)) == Some(event),
{
    law_lines_read_back(all, ending);
    law_rule_line(all);
    law_event_described(written(all, ending), event);
    assert(last_summary(all) == Some(event.summary)) by {
        law_summary_line(event.summary, all[at.0]);
        let before = all.take(at.0);
        let after = all.skip(at.0 + 1);
        assert(all == before.push(all[at.0]) + after);
        assert forall|i: int| 0 <= i < after.len() implies summary_in(
            #[trigger] after[i],
        ) is None by {
            assert(!begins_with(all[at.0 + 1 + i], "SUMMARY:"@));
        }
        law_last_summary_prevails(before, all[at.0], after);
    }
    reveal_strlit("DTSTART;");
    reveal_strlit("DTSTART");
    reveal_strlit("DTEND;");
    reveal_strlit("DTEND");
    reveal_strlit("TZID=");
    assert("DTSTART;"@ == "DTSTART"@ + seq![';']);
    assert("DTEND;"@ == "DTEND"@ + seq![';']);
    lemma_only_zoned(all, at.1, "DTSTART"@, start);
    lemma_only_zoned(all, at.2, "DTEND"@, end);
}

/// The only line of a property gives the zone name and the time of the property.
proof fn lemma_only_zoned(
    all: Seq<Seq<char>>,
    at: int,
    name: Seq<char>,
    given: (Seq<char>, Seq<char>),
)
    requires
        0 <= at < all.len(),
        name == "DTSTART"@ || name == "DTEND"@,
        all[at] == name + seq![';'] + "TZID="@ + given.0 + ":"@ + given.1,
        forall|i: int| 0 <= i < all.len() && i != at ==> !begins_with(#[trigger] all[i], name),
        !given.0.contains(':'),
    ensures
        last_zoned(all, name) == Some(given),
{
    reveal_strlit("DTSTART");
    reveal_strlit("DTEND");
    reveal_strlit("TZID=");
    let line = all[at];
    let head = name + seq![';'];
    law_begins_with(name, line.skip(name.len() as int), line);
    assert(line == name + line.skip(name.len() as int));
    assert forall|i: int| 0 <= i < head.len() implies !occurs_at(line, "TZID="@, i) by {
        if occurs_at(line, "TZID="@, i) {
            assert(line.subrange(i, i + 5)[0] == 'T');
            assert(line.subrange(i, i + 5)[1] == 'Z');
            assert(line[i] == head[i]);
            assert(i + 1 < head.len() ==> line[i + 1] == head[i + 1]);
        }
    }
    law_zoned_line(head, given.0, given.1, name);
    let before = all.take(at);
    let after = all.skip(at + 1);
    assert(all == before.push(line) + after);
    assert forall|i: int| 0 <= i < after.len() implies zoned_in(
        #[trigger] after[i],
        name,
    ) is None by {
        assert(!begins_with(all[at + 1 + i], name));
    }
    law_last_zoned_prevails(before, line, after, name);
}

/// An event is put together from its parts as they are; there is one exactly if none is missing.
pub proof fn law_whole_event(
    summary: Option<Seq<char>>,
    start: Option<ZonedView>,
    end: Option<ZonedView>,
    recurring: bool,
    event: EventView,
)
    ensures
        whole_event(summary, start, end, recurring) == Some(event) <==> {
            &&& summary == Some(event.summary)
            &&& start == Some(event.start)
            &&& end == Some(event.end)
            &&& event.recurring == recurring
        },
{
}

} // verus!
