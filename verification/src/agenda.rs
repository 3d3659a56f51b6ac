//! From calendar events to the next event on the panel.

use vstd::prelude::*;
use vstd::string::*;

use crate::calendar::{event_in, parse_event, reads_as, CalendarEvent, EventView, ZonedView};
use crate::clock::{
    basic_stamp, day_of, distance, format_time, hour_minute, in_range,
    law_instant_is_only_reading, moved, only_reading, parsed_time, second_of_day, shown_once,
    wall_secs, zone_instant, zone_offset, Moment, Span, WallTime, Zone, DAY, FIRST_SECOND,
    LAST_SECOND,
};
use crate::text::{decimal, push_decimal};

verus! {

/// A computation left the representable range of time.
#[derive(Clone, Copy, Debug, PartialEq, Eq, Structural)]
pub struct OutOfRange;

/// How long it is until an event, in words: `now` below one minute, minutes below one hour, and
/// hours with the minutes left over, if any.
pub open spec fn countdown(minutes: int) -> Seq<char> {
    if minutes < 1 {
        "now"@
    } else if minutes < 60 {
        "in "@ + decimal(minutes as nat) + "m"@
    } else if minutes % 60 == 0 {
        "in "@ + decimal((minutes / 60) as nat) + "h"@
    } else {
        "in "@ + decimal((minutes / 60) as nat) + "h"@ + decimal((minutes % 60) as nat) + "m"@
    }
}

/// Says in words how long it is until an event.
pub fn format_countdown(minutes: i64) -> (r: String)
    ensures
        r@ == countdown(minutes as int),
{
    if minutes < 1 {
        "now".to_owned()
    } else if minutes < 60 {
        let mut out = "in ".to_owned();
        push_decimal(&mut out, minutes as u64);
        out.append("m");
        out
    } else {
        let hours: i64 = minutes / 60;
        let mins: i64 = minutes % 60;
        let mut out = "in ".to_owned();
        push_decimal(&mut out, hours as u64);
        out.append("h");
        if mins != 0 {
            push_decimal(&mut out, mins as u64);
            out.append("m");
        }
        out
    }
}

/// The expression that selects the objects between two times.
pub open spec fn range_query(from: Seq<char>, to: Seq<char>) -> Seq<char> {
    "(occur-in-time-range? (make-time \""@ + from + "\") (make-time \""@ + to + "\"))"@
}

/// Writes the expression that selects the objects between two times.
pub fn time_range_query(from: &str, to: &str) -> (r: String)
    ensures
        r@ == range_query(from@, to@),
        r@ == "(occur-in-time-range? (make-time \""@ + from@ + "\") (make-time \""@ + to@ + "\"))"@,
{
    let mut out = "(occur-in-time-range? (make-time \"".to_owned();
    out.append(from);
    out.append("\") (make-time \"");
    out.append(to);
    out.append("\"))");
    out
}

/// The expression that selects the objects of the twenty-four hours from a point in time on.
pub fn calendar_query(now: Moment) -> (r: String)
    requires
        now.valid(),
        moved(now, DAY * 1_000_000_000) is Some,
    ensures
        ({
            let tomorrow = moved(now, DAY * 1_000_000_000)->0;
            r@ == range_query(
                basic_stamp(now.secs as int, now.nanos as int) + "Z"@,
                basic_stamp(tomorrow.secs as int, tomorrow.nanos as int) + "Z"@,
            )
        }),
        !now.in_leap_second() ==> r@ == "(occur-in-time-range? (make-time \""@ + basic_stamp(
            now.secs as int,
            now.nanos as int,
        ) + "Z"@ + "\") (make-time \""@ + basic_stamp(now.secs + 86_400, now.nanos as int) + "Z"@
            + "\"))"@,
{
    let tomorrow: Moment = now.checked_add(Span::one_day()).unwrap();
    let from = format_time(now, 0, "%Y%m%dT%H%M%SZ");
    let to = format_time(tomorrow, 0, "%Y%m%dT%H%M%SZ");
    time_range_query(from.as_str(), to.as_str())
}

/// The day that the wall clocks of a zone show, counted from 1970-01-01, if it is representable.
pub open spec fn local_day(zone: Seq<char>, now: Moment) -> Option<int> {
    let wall = wall_secs(zone, now.secs);
    if in_range(wall) {
        Some(wall / 86_400)
    } else {
        None
    }
}

/// A representable day.
pub open spec fn valid_day(day: int) -> bool {
    in_range(day * 86_400)
}

/// The day that wall clocks `offset` seconds ahead of UTC show, counted from 1970-01-01.
pub fn day_at(now: Moment, offset: i32) -> (r: Result<i64, OutOfRange>)
    requires
        now.valid(),
    ensures
        in_range(now.secs + offset) ==> r == Ok::<i64, OutOfRange>(
            ((now.secs + offset) / 86_400) as i64,
        ) && valid_day((now.secs + offset) / 86_400),
        !in_range(now.secs + offset) ==> r is Err,
{
    let wall: i64 = now.secs + offset as i64;
    if FIRST_SECOND <= wall && wall <= LAST_SECOND {
        Ok(day_of(wall))
    } else {
        Err(OutOfRange)
    }
}

/// The day that the wall clocks of a zone show, counted from 1970-01-01.
pub fn today_in(zone: &Zone, now: Moment) -> (r: Result<i64, OutOfRange>)
    requires
        now.valid(),
    ensures
        match local_day(zone@, now) {
            Some(day) => r == Ok::<i64, OutOfRange>(day as i64) && valid_day(day),
            None => r is Err,
        },
        r matches Ok(day) ==> day * 86_400 <= now.secs + zone_offset(zone@, now.secs) < (day + 1)
            * 86_400,
        r is Err <==> !in_range(now.secs + zone_offset(zone@, now.secs)),
{
    day_at(now, zone.offset_at(now))
}

/// The second on a day that has the time of day at which an event starts, both by the wall clocks
/// of a zone.
pub open spec fn same_time_on(event: EventView, zone: Seq<char>, day: int) -> int {
    day * 86_400 + wall_secs(zone, event.start.at.secs) % 86_400
}

/// When an event starts on a day, if its time of day comes exactly once on that day.
pub open spec fn start_on(event: EventView, zone: Seq<char>, day: int) -> Option<Moment> {
    match zone_instant(zone, same_time_on(event, zone, day) as i64) {
        Some(secs) => Some(Moment { secs, nanos: event.start.at.nanos }),
        None => None,
    }
}

/// An event moved to another start. It takes as long as before.
pub open spec fn rescheduled(event: EventView, start: Moment) -> Option<EventView> {
    match moved(start, distance(event.end.at, event.start.at)) {
        Some(end) => Some(
            EventView {
                summary: event.summary,
                start: ZonedView { at: start, zone: event.start.zone },
                end: ZonedView { at: end, zone: event.end.zone },
                recurring: event.recurring,
            },
        ),
        None => None,
    }
}

/// An event as it takes place on a day: one that recurs is moved to that day, and does not take
/// place where its time of day does not come exactly once.
pub open spec fn occurrence(event: EventView, zone: Seq<char>, day: int) -> Result<
    Option<EventView>,
    OutOfRange,
> {
    if !event.recurring {
        Ok(Some(event))
    } else {
        match start_on(event, zone, day) {
            None => Ok(None),
            Some(start) => match rescheduled(event, start) {
                None => Err(OutOfRange),
                Some(placed) => Ok(Some(placed)),
            },
        }
    }
}

/// The occurrence of an event, if it is still to come.
pub open spec fn coming(event: EventView, zone: Seq<char>, day: int, now: Moment) -> Result<
    Option<EventView>,
    OutOfRange,
> {
    match occurrence(event, zone, day) {
        Ok(Some(placed)) => if placed.start.at.after(now) {
            Ok(Some(placed))
        } else {
            Ok(None)
        },
        other => other,
    }
}

/// What the outcome for one event stands for.
pub open spec fn outcome(r: Result<Option<CalendarEvent>, OutOfRange>) -> Result<
    Option<EventView>,
    OutOfRange,
> {
    match r {
        Ok(Some(event)) => Ok(Some(event@)),
        Ok(None) => Ok(None),
        Err(e) => Err(e),
    }
}

/// The reading on a day of the time of day that wall clocks `offset` seconds ahead of UTC show at a
/// point in time.
pub fn same_time(at: Moment, offset: i32, day: i64) -> (r: WallTime)
    requires
        at.valid(),
        valid_day(day as int),
    ensures
        r.valid(),
        r.secs == day * 86_400 + (at.secs + offset) % 86_400,
        r.nanos == at.nanos,
{
    let second: i64 = second_of_day(at.secs + offset as i64);
    WallTime { secs: day * DAY + second, nanos: at.nanos }
}

/// When an event starts on a day, if its time of day comes exactly once on that day.
pub fn start_on_day(event: &CalendarEvent, zone: &Zone, day: i64) -> (r: Option<Moment>)
    requires
        event@.valid(),
        valid_day(day as int),
    ensures
        r == start_on(event@, zone@, day as int),
        r is Some <==> shown_once(
            zone@,
            same_time_on(event@, zone@, day as int) as i64,
        ),
        r matches Some(at) ==> at.valid() && only_reading(
            zone@,
            at.secs,
            same_time_on(event@, zone@, day as int) as i64,
        ),
{
    let start: Moment = event.start.at;
    zone.single(same_time(start, zone.offset_at(start), day))
}

/// Moves an event to another start. It takes as long as before and keeps its zones.
pub fn reschedule(event: CalendarEvent, start: Moment) -> (r: CalendarEvent)
    requires
        event@.valid(),
        start.valid(),
        rescheduled(event@, start) is Some,
    ensures
        Some(r@) == rescheduled(event@, start),
        r@.valid(),
        r.start.at == start,
        Some(r.end.at) == moved(start, distance(event.end.at, event.start.at)),
        r.summary@ == event.summary@,
        r.start.zone@ == event.start.zone@,
        r.end.zone@ == event.end.zone@,
        r.recurring == event.recurring,
{
    let span: Span = event.end.at.since(event.start.at);
    let end: Moment = start.checked_add(span).unwrap();
    let mut placed = event;
    placed.start.at = start;
    placed.end.at = end;
    placed
}

/// An event as it takes place on a day. The start of one that recurs is the only second at which
/// the wall clocks of the zone show that day and the time of day of the original start.
pub fn occurrence_on(event: CalendarEvent, zone: &Zone, day: i64) -> (r: Result<
    Option<CalendarEvent>,
    OutOfRange,
>)
    requires
        event@.valid(),
        valid_day(day as int),
    ensures
        outcome(r) == occurrence(event@, zone@, day as int),
        r matches Ok(Some(placed)) ==> placed@.valid() && (event.recurring ==> only_reading(
            zone@,
            placed.start.at.secs,
            same_time_on(event@, zone@, day as int) as i64,
        )),
        event.recurring ==> (r matches Ok(Some(placed)) ==> {
            &&& wall_secs(zone@, placed.start.at.secs) / 86_400 == day
            &&& wall_secs(zone@, placed.start.at.secs) % 86_400 == wall_secs(
                zone@,
                event.start.at.secs,
            ) % 86_400
            &&& placed.start.at.nanos == event.start.at.nanos
            &&& Some(placed.end.at) == moved(
                placed.start.at,
                distance(event.end.at, event.start.at),
            )
        }),
        !event.recurring ==> (r matches Ok(Some(placed)) && placed.start.at == event.start.at
            && placed.end.at == event.end.at),
        r matches Ok(Some(placed)) ==> {
            &&& placed.summary@ == event.summary@
            &&& placed.start.zone@ == event.start.zone@
            &&& placed.end.zone@ == event.end.zone@
            &&& placed.recurring == event.recurring
        },
{
    if !event.recurring {
        return Ok(Some(event));
    }
    match start_on_day(&event, zone, day) {
        None => Ok(None),
        Some(start) => {
            let span: Span = event.end.at.since(event.start.at);
            if start.checked_add(span).is_none() {
                Err(OutOfRange)
            } else {
                Ok(Some(reschedule(event, start)))
            }
        },
    }
}

/// The occurrence of an event on a day, if it is still to come.
pub fn coming_event(event: CalendarEvent, zone: &Zone, day: i64, now: Moment) -> (r: Result<
    Option<CalendarEvent>,
    OutOfRange,
>)
    requires
        event@.valid(),
        valid_day(day as int),
    ensures
        outcome(r) == coming(event@, zone@, day as int, now),
        r matches Ok(Some(placed)) ==> placed@.valid(),
        r matches Ok(Some(placed)) ==> {
            &&& placed.start.at.after(now)
            &&& placed.summary@ == event.summary@
            &&& placed.start.zone@ == event.start.zone@
            &&& placed.end.zone@ == event.end.zone@
            &&& placed.recurring == event.recurring
            &&& event.recurring || (placed.start.at == event.start.at && placed.end.at
                == event.end.at)
        },
        !event.recurring ==> (r matches Ok(found) && (found is Some <==> event.start.at.after(
            now,
        ))),
{
    match occurrence_on(event, zone, day) {
        Ok(Some(placed)) => if placed.start.at.is_after(now) {
            Ok(Some(placed))
        } else {
            Ok(None)
        },
        other => other,
    }
}

/// What a list of events stands for.
pub open spec fn event_views(events: Seq<CalendarEvent>) -> Seq<EventView> {
    events.map_values(|event: CalendarEvent| event@)
}

/// What a list of texts stands for.
pub open spec fn text_views(texts: Seq<String>) -> Seq<Seq<char>> {
    texts.map_values(|text: String| text@)
}

/// The events that the texts describe and that are still to come, in the order of the texts.
/// Texts that describe no event are passed over; there is no list where some event leaves the
/// representable range.
pub open spec fn coming_events(
    texts: Seq<Seq<char>>,
    zone: Seq<char>,
    day: int,
    now: Moment,
) -> Option<Seq<EventView>>
    decreases texts.len(),
{
    if texts.len() == 0 {
        Some(seq![])
    } else {
        match coming_events(texts.drop_last(), zone, day, now) {
            None => None,
            Some(before) => match event_in(texts.last()) {
                None => Some(before),
                Some(event) => match coming(event, zone, day, now) {
                    Err(_) => None,
                    Ok(None) => Some(before),
                    Ok(Some(placed)) => Some(before.push(placed)),
                },
            },
        }
    }
}

/// A list with an event put in before the events at the end that start later.
pub open spec fn inserted(events: Seq<EventView>, event: EventView) -> Seq<EventView>
    decreases events.len(),
{
    if events.len() == 0 || !events.last().start.at.after(event.start.at) {
        events.push(event)
    } else {
        inserted(events.drop_last(), event).push(events.last())
    }
}

/// A list in the order of the starts; events that start together keep their order.
pub open spec fn by_start(events: Seq<EventView>) -> Seq<EventView>
    decreases events.len(),
{
    if events.len() == 0 {
        events
    } else {
        inserted(by_start(events.drop_last()), events.last())
    }
}

/// The events still to come, in the order of their starts.
pub open spec fn agenda(texts: Seq<Seq<char>>, zone: Seq<char>, now: Moment) -> Option<
    Seq<EventView>,
> {
    match local_day(zone, now) {
        None => None,
        Some(day) => match coming_events(texts, zone, day, now) {
            None => None,
            Some(events) => Some(by_start(events)),
        },
    }
}

/// Where [`inserted`] puts an event.
proof fn lemma_inserted_at(events: Seq<EventView>, event: EventView, at: int)
    requires
        0 <= at <= events.len(),
        at > 0 ==> !events[at - 1].start.at.after(event.start.at),
        forall|i: int| at <= i < events.len() ==> (#[trigger] events[i]).start.at.after(
            event.start.at,
        ),
    ensures
        inserted(events, event) == events.insert(at, event),
    decreases events.len(),
{
    if at == events.len() {
        assert(events.insert(at, event) == events.push(event));
    } else {
        lemma_inserted_at(events.drop_last(), event, at);
        assert(events.drop_last().insert(at, event).push(events.last()) == events.insert(
            at,
            event,
        ));
    }
}

/// Puts an event in before the events at the end of a list that start later.
pub fn insert_by_start(events: &mut Vec<CalendarEvent>, event: CalendarEvent)
    ensures
        event_views(final(events)@) == inserted(event_views(old(events)@), event@),
{
    let mut at: usize = events.len();
    while at > 0 && events[at - 1].start.at.is_after(event.start.at)
        invariant
            at <= events@.len(),
            events@ == old(events)@,
            forall|i: int| at <= i < events@.len() ==> (#[trigger] events@[i]).start.at.after(
                event.start.at,
            ),
        decreases at,
    {
        at -= 1;
    }
    proof {
        let views = event_views(events@);
        assert forall|i: int| at <= i < views.len() implies (#[trigger] views[i]).start.at.after(
            event.start.at,
        ) by {
            assert(events@[i].start.at.after(event.start.at));
        }
        if at > 0 {
            assert(views[at - 1].start.at == events@[at - 1].start.at);
        }
        lemma_inserted_at(views, event@, at as int);
        assert(event_views(events@.insert(at as int, event)) == views.insert(at as int, event@));
    }
    events.insert(at, event);
}

/// Reads the events that are still to come from their texts and puts them in the order of their
/// starts. It fails where the wall-clock day or some event leaves the representable range.
pub fn upcoming_events(texts: &[String], zone: &Zone, now: Moment) -> (r: Result<
    Vec<CalendarEvent>,
    OutOfRange,
>)
    requires
        now.valid(),
    ensures
        match agenda(text_views(texts@), zone@, now) {
            Some(events) => r matches Ok(list) && event_views(list@) == events,
            None => r is Err,
        },
        r matches Ok(list) ==> forall|i: int|
            0 <= i < list@.len() ==> (#[trigger] list@[i])@.valid(),
        r matches Ok(list) ==> {
            let events = agenda(text_views(texts@), zone@, now)->0;
            list@.len() == events.len() && forall|i: int|
                0 <= i < list@.len() ==> (#[trigger] list@[i])@ == events[i]
        },
{
    let day: i64 = today_in(zone, now)?;
    let ghost views = text_views(texts@);
    let mut list: Vec<CalendarEvent> = Vec::new();
    let mut i: usize = 0;
    assert(event_views(list@) == by_start(seq![]));
    assert(views.take(0) == Seq::<Seq<char>>::empty());
    while i < texts.len()
        invariant
            views == text_views(texts@),
            local_day(zone@, now) == Some(day as int),
            valid_day(day as int),
            i <= texts@.len(),
            coming_events(views.take(i as int), zone@, day as int, now) is Some,
            event_views(list@) == by_start(
                coming_events(views.take(i as int), zone@, day as int, now)->0,
            ),
            forall|j: int| 0 <= j < list@.len() ==> (#[trigger] list@[j])@.valid(),
        decreases texts@.len() - i,
    {
        let ghost before = coming_events(views.take(i as int), zone@, day as int, now)->0;
        proof {
            assert(views.take(i + 1).drop_last() == views.take(i as int));
            assert(views.take(i + 1).last() == texts@[i as int]@);
        }
        if let Some(event) = parse_event(texts[i].as_str()) {
            match coming_event(event, zone, day, now) {
                Err(e) => {
                    proof {
                        lemma_no_list(views, i + 1, zone@, day as int, now);
                    }
                    return Err(e);
                },
                Ok(None) => {},
                Ok(Some(placed)) => {
                    proof {
                        assert(before.push(placed@).drop_last() == before);
                        assert(before.push(placed@).last() == placed@);
                    }
                    let ghost earlier = event_views(list@);
                    proof {
                        assert forall|j: int| 0 <= j < earlier.len() implies (
                        #[trigger] earlier[j]).valid() by {
                            assert(list@[j]@.valid());
                        }
                        lemma_inserted_valid(earlier, placed@);
                    }
                    insert_by_start(&mut list, placed);
                    proof {
                        assert forall|j: int| 0 <= j < list@.len() implies (
                        #[trigger] list@[j])@.valid() by {
                            assert(event_views(list@)[j] == list@[j]@);
                        }
                    }
                },
            }
        }
        i += 1;
    }
    assert(views.take(texts@.len() as int) == views);
    assert forall|j: int| 0 <= j < list@.len() implies (#[trigger] list@[j])@ == event_views(
        list@,
    )[j] by {}
    Ok(list)
}

/// Where there is no list for the first texts, there is none for all of them.
proof fn lemma_no_list(
    texts: Seq<Seq<char>>,
    size: int,
    zone: Seq<char>,
    day: int,
    now: Moment,
)
    requires
        0 <= size <= texts.len(),
        coming_events(texts.take(size), zone, day, now) is None,
    ensures
        coming_events(texts, zone, day, now) is None,
    decreases texts.len() - size,
{
    if size == texts.len() {
        assert(texts.take(size) == texts);
    } else {
        assert(texts.take(size + 1).drop_last() == texts.take(size));
        lemma_no_list(texts, size + 1, zone, day, now);
    }
}

/// A list with an event put in is valid where the list and the event are.
proof fn lemma_inserted_valid(events: Seq<EventView>, event: EventView)
    requires
        event.valid(),
        forall|i: int| 0 <= i < events.len() ==> (#[trigger] events[i]).valid(),
    ensures
        forall|i: int|
            0 <= i < inserted(events, event).len() ==> (#[trigger] inserted(
                events,
                event,
            )[i]).valid(),
    decreases events.len(),
{
    let all = inserted(events, event);
    if events.len() == 0 || !events.last().start.at.after(event.start.at) {
        assert forall|i: int| 0 <= i < all.len() implies (#[trigger] all[i]).valid() by {
            assert(i < events.len() ==> events[i].valid());
        }
    } else {
        let front = inserted(events.drop_last(), event);
        lemma_inserted_valid(events.drop_last(), event);
        assert forall|i: int| 0 <= i < all.len() implies (#[trigger] all[i]).valid() by {
            assert(i < front.len() ==> front[i].valid());
            assert(events[events.len() - 1].valid());
        }
    }
}

/// The whole minutes of a number of nanoseconds, rounded towards zero.
pub open spec fn whole_minutes(nanos: int) -> int {
    if nanos >= 0 {
        nanos / 60_000_000_000
    } else {
        -((-nanos) / 60_000_000_000)
    }
}

/// What the panel says of the next event.
#[derive(Debug)]
pub struct NextEvent {
    /// What it is called.
    pub name: String,
    /// From when to when it takes place.
    pub time: String,
    /// How long it is until then.
    pub countdown: String,
}

/// What a [`NextEvent`] stands for.
#[verifier::ext_equal]
pub struct NextView {
    pub name: Seq<char>,
    pub time: Seq<char>,
    pub countdown: Seq<char>,
}

impl View for NextEvent {
    type V = NextView;

    open spec fn view(&self) -> NextView {
        NextView { name: self.name@, time: self.time@, countdown: self.countdown@ }
    }
}

/// From when to when an event takes place, by the wall clocks of a zone.
pub open spec fn hours_of(event: EventView, zone: Seq<char>) -> Seq<char> {
    hour_minute(wall_secs(zone, event.start.at.secs) % 86_400) + "-"@ + hour_minute(
        wall_secs(zone, event.end.at.secs) % 86_400,
    )
}

/// What the panel says of the first event of a list.
pub open spec fn next_in(events: Seq<EventView>, zone: Seq<char>, now: Moment) -> NextView {
    if events.len() == 0 {
        NextView { name: "No upcoming events"@, time: seq![], countdown: seq![] }
    } else {
        NextView {
            name: events[0].summary,
            time: hours_of(events[0], zone),
            countdown: countdown(whole_minutes(distance(events[0].start.at, now))),
        }
    }
}

/// From when to when something takes place, by wall clocks that are so many seconds ahead of UTC
/// at its start and at its end.
pub fn hours_text(start: Moment, start_offset: i32, end: Moment, end_offset: i32) -> (r: String)
    requires
        start.valid(),
        end.valid(),
        -86_400 < start_offset < 86_400,
        -86_400 < end_offset < 86_400,
    ensures
        r@ == hour_minute((start.secs + start_offset) % 86_400) + "-"@ + hour_minute(
            (end.secs + end_offset) % 86_400,
        ),
{
    let mut out = format_time(start, start_offset, "%-H:%M");
    let until = format_time(end, end_offset, "%-H:%M");
    out.append("-");
    out.append(until.as_str());
    out
}

/// Says what the panel shows of the first event of a list.
pub fn next_event(events: &[CalendarEvent], zone: &Zone, now: Moment) -> (r: NextEvent)
    requires
        now.valid(),
        events@.len() > 0 ==> events@[0]@.valid(),
    ensures
        r@ == next_in(event_views(events@), zone@, now),
        events@.len() == 0 ==> r.name@ == "No upcoming events"@ && r.time@.len() == 0
            && r.countdown@.len() == 0,
        events@.len() > 0 ==> {
            let first = events@[0];
            &&& r.name@ == first.summary@
            &&& r.time@ == hour_minute(wall_secs(zone@, first.start.at.secs) % 86_400) + "-"@
                + hour_minute(wall_secs(zone@, first.end.at.secs) % 86_400)
            &&& r.countdown@ == countdown(whole_minutes(distance(first.start.at, now)))
        },
{
    if events.len() == 0 {
        return NextEvent {
            name: "No upcoming events".to_owned(),
            time: String::new(),
            countdown: String::new(),
        };
    }
    let first = &events[0];
    let start: Moment = first.start.at;
    let end: Moment = first.end.at;
    let time = hours_text(start, zone.offset_at(start), end, zone.offset_at(end));
    let minutes: i64 = start.since(now).num_minutes();
    NextEvent { name: first.summary.clone(), time, countdown: format_countdown(minutes) }
}

/// A moved event takes as long as before. Where its start lies in a leap second and its end does
/// not fall in the same second, this needs the end to be later in the day exactly if the event
/// takes a positive time.
pub proof fn law_rescheduled_takes_as_long(event: EventView, start: Moment)
    requires
        start.valid(),
        rescheduled(event, start) is Some,
        ({
            let end = (rescheduled(event, start)->0).end.at;
            start.in_leap_second() && end.secs != start.secs ==> (distance(
                event.end.at,
                event.start.at,
            ) > 0 <==> end.secs % DAY > start.secs % DAY)
        }),
    ensures
        ({
            let placed = rescheduled(event, start)->0;
            distance(placed.end.at, placed.start.at) == distance(event.end.at, event.start.at)
        }),
{
    crate::clock::law_moved_distance(start, distance(event.end.at, event.start.at));
}

/// Different times of at least a minute are told differently, and no such time is told like one
/// below a minute.
pub proof fn law_countdown_distinct(a: int, b: int)
    requires
        countdown(a) == countdown(b),
    ensures
        a == b || (a < 1 && b < 1),
{
    reveal_strlit("now");
    reveal_strlit("in ");
    reveal_strlit("m");
    reveal_strlit("h");
    let s = countdown(a);
    if a >= 1 && b >= 1 {
        lemma_countdown_parts(a);
        lemma_countdown_parts(b);
        let la = decimal(leading(a)).len() as int;
        let lb = decimal(leading(b)).len() as int;
        crate::text::law_decimal_digits(leading(a));
        crate::text::law_decimal_digits(leading(b));
        assert(la == lb) by {
            if la < lb {
                assert(s[3 + la] == decimal(leading(b))[la]);
            }
            if lb < la {
                assert(s[3 + lb] == decimal(leading(a))[lb]);
            }
        }
        assert(decimal(leading(a)) == s.subrange(3, 3 + la));
        assert(decimal(leading(b)) == s.subrange(3, 3 + lb));
        crate::text::law_decimal_injective(leading(a), leading(b));
        assert((a < 60) == (b < 60));
        if a >= 60 {
            assert((a % 60 == 0) == (b % 60 == 0));
            if a % 60 != 0 {
                assert(decimal((a % 60) as nat) == s.subrange(4 + la, s.len() - 1));
                assert(decimal((b % 60) as nat) == s.subrange(4 + la, s.len() - 1));
                crate::text::law_decimal_injective((a % 60) as nat, (b % 60) as nat);
            }
        }
    } else if a >= 1 {
        lemma_countdown_parts(a);
    } else if b >= 1 {
        lemma_countdown_parts(b);
    }
}

/// The number that a countdown of at least a minute begins with.
spec fn leading(minutes: int) -> nat {
    if minutes < 60 {
        minutes as nat
    } else {
        (minutes / 60) as nat
    }
}

/// Where the parts of a countdown stand.
proof fn lemma_countdown_parts(minutes: int)
    requires
        minutes >= 1,
    ensures
        ({
            let s = countdown(minutes);
            let size = decimal(leading(minutes)).len() as int;
            &&& s.len() >= 4 + size
            &&& s[0] == 'i'
            &&& s.subrange(3, 3 + size) == decimal(leading(minutes))
            &&& forall|i: int| 0 <= i < size ==> s[3 + i] == #[trigger] decimal(
                leading(minutes),
            )[i]
            &&& s[3 + size] == (if minutes < 60 {
                'm'
            } else {
                'h'
            })
            &&& minutes < 60 || minutes % 60 == 0 <==> s.len() == 4 + size
            &&& minutes >= 60 && minutes % 60 != 0 ==> s.subrange(4 + size, s.len() - 1)
                == decimal((minutes % 60) as nat)
        }),
{
    reveal_strlit("in ");
    reveal_strlit("m");
    reveal_strlit("h");
    let s = countdown(minutes);
    let size = decimal(leading(minutes)).len() as int;
    crate::text::law_decimal_digits((minutes % 60) as nat);
    assert(s.subrange(3, 3 + size) == decimal(leading(minutes)));
    if minutes >= 60 && minutes % 60 != 0 {
        assert(s.subrange(4 + size, s.len() - 1) == decimal((minutes % 60) as nat));
    }
}

/// An event that is still to come is never told to be a negative number of minutes away.
pub proof fn law_coming_minutes(start: Moment, now: Moment)
    requires
        start.valid(),
        now.valid(),
        start.after(now),
    ensures
        whole_minutes(distance(start, now)) >= 0,
{
}

/// No event of a list in the order of the starts starts later than one after it.
pub proof fn law_by_start_sorted(events: Seq<EventView>)
    ensures
        forall|i: int, j: int|
            #![trigger by_start(events)[i], by_start(events)[j]]
            0 <= i < j < by_start(events).len() ==> !by_start(events)[i].start.at.after(
                by_start(events)[j].start.at,
            ),
    decreases events.len(),
{
    if events.len() > 0 {
        law_by_start_sorted(events.drop_last());
        lemma_inserted_sorted(by_start(events.drop_last()), events.last());
    }
}

/// Putting an event in keeps a list in the order of the starts.
proof fn lemma_inserted_sorted(events: Seq<EventView>, event: EventView)
    requires
        forall|i: int, j: int|
            #![trigger events[i], events[j]]
            0 <= i < j < events.len() ==> !events[i].start.at.after(events[j].start.at),
    ensures
        forall|i: int, j: int|
            #![trigger inserted(events, event)[i], inserted(events, event)[j]]
            0 <= i < j < inserted(events, event).len() ==> !inserted(
                events,
                event,
            )[i].start.at.after(inserted(events, event)[j].start.at),
        forall|i: int|
            0 <= i < inserted(events, event).len() ==> (#[trigger] inserted(events, event)[i])
                == event || events.contains(inserted(events, event)[i]),
    decreases events.len(),
{
    let all = inserted(events, event);
    if events.len() == 0 || !events.last().start.at.after(event.start.at) {
        assert forall|i: int, j: int|
            #![trigger all[i], all[j]]
            0 <= i < j < all.len() implies !all[i].start.at.after(all[j].start.at) by {
            if j == events.len() {
                let last = events[events.len() - 1];
                assert(i < events.len() - 1 ==> !events[i].start.at.after(last.start.at));
            } else {
                assert(!events[i].start.at.after(events[j].start.at));
            }
        }
        assert forall|i: int| 0 <= i < all.len() implies (#[trigger] all[i]) == event
            || events.contains(all[i]) by {
            assert(i < events.len() ==> events[i] == all[i]);
        }
    } else {
        let front = events.drop_last();
        assert forall|i: int, j: int|
            #![trigger front[i], front[j]]
            0 <= i < j < front.len() implies !front[i].start.at.after(front[j].start.at) by {
            assert(!events[i].start.at.after(events[j].start.at));
        }
        lemma_inserted_sorted(front, event);
        let most = inserted(front, event);
        let last = events[events.len() - 1];
        assert forall|i: int| 0 <= i < most.len() implies !(#[trigger] most[i]).start.at.after(
            last.start.at,
        ) by {
            if most[i] != event {
                let k = choose|k: int| 0 <= k < front.len() && front[k] == most[i];
                assert(!events[k].start.at.after(last.start.at));
            }
        }
        assert forall|i: int, j: int|
            #![trigger all[i], all[j]]
            0 <= i < j < all.len() implies !all[i].start.at.after(all[j].start.at) by {
            if j < most.len() {
                assert(!most[i].start.at.after(most[j].start.at));
            } else {
                assert(!most[i].start.at.after(last.start.at));
            }
        }
        assert forall|i: int| 0 <= i < all.len() implies (#[trigger] all[i]) == event
            || events.contains(all[i]) by {
            if i < most.len() {
                if most[i] != event {
                    let k = choose|k: int| 0 <= k < front.len() && front[k] == most[i];
                    assert(events[k] == all[i]);
                }
            } else {
                assert(events[events.len() - 1] == all[i]);
            }
        }
    }
}

/// A list in the order of the starts holds the same events as before.
pub proof fn law_by_start_keeps_events(events: Seq<EventView>)
    ensures
        by_start(events).to_multiset() == events.to_multiset(),
        by_start(events).len() == events.len(),
    decreases events.len(),
{
    broadcast use vstd::seq_lib::group_to_multiset_ensures;

    if events.len() > 0 {
        let front = events.drop_last();
        law_by_start_keeps_events(front);
        lemma_inserted_multiset(by_start(front), events.last());
        assert(front.push(events.last()) == events);
    }
}

/// Putting an event in adds just that event.
proof fn lemma_inserted_multiset(events: Seq<EventView>, event: EventView)
    ensures
        inserted(events, event).to_multiset() == events.to_multiset().insert(event),
        inserted(events, event).len() == events.len() + 1,
    decreases events.len(),
{
    broadcast use vstd::seq_lib::group_to_multiset_ensures;

    if !(events.len() == 0 || !events.last().start.at.after(event.start.at)) {
        let front = events.drop_last();
        lemma_inserted_multiset(front, event);
        assert(front.push(events.last()) == events);
        assert(front.to_multiset().insert(event).insert(events.last())
            =~= front.to_multiset().insert(events.last()).insert(event));
    }
}

/// Events that start together keep their order in a list in the order of the starts.
pub proof fn law_by_start_stable(events: Seq<EventView>, start: Moment)
    ensures
        by_start(events).filter(|e: EventView| e.start.at == start) == events.filter(
            |e: EventView| e.start.at == start,
        ),
    decreases events.len(),
{
    let same = |e: EventView| e.start.at == start;
    if events.len() > 0 {
        let front = events.drop_last();
        law_by_start_stable(front, start);
        law_by_start_sorted(front);
        lemma_inserted_filter(by_start(front), events.last(), start);
        assert(front.push(events.last()) == events);
        front.lemma_filter_push(events.last(), same);
        by_start(front).lemma_filter_push(events.last(), same);
    } else {
        assert(by_start(events) == events);
    }
}

/// Where an event is put in among those that start with it: at their end.
proof fn lemma_inserted_filter(events: Seq<EventView>, event: EventView, start: Moment)
    requires
        forall|i: int, j: int|
            #![trigger events[i], events[j]]
            0 <= i < j < events.len() ==> !events[i].start.at.after(events[j].start.at),
    ensures
        inserted(events, event).filter(|e: EventView| e.start.at == start) == events.push(
            event,
        ).filter(|e: EventView| e.start.at == start),
    decreases events.len(),
{
    let same = |e: EventView| e.start.at == start;
    if !(events.len() == 0 || !events.last().start.at.after(event.start.at)) {
        let front = events.drop_last();
        let last = events.last();
        assert forall|i: int, j: int|
            #![trigger front[i], front[j]]
            0 <= i < j < front.len() implies !front[i].start.at.after(front[j].start.at) by {
            assert(!events[i].start.at.after(events[j].start.at));
        }
        lemma_inserted_filter(front, event, start);
        let most = inserted(front, event);
        most.lemma_filter_push(last, same);
        front.lemma_filter_push(event, same);
        events.lemma_filter_push(event, same);
        assert(front.push(last) == events);
        front.lemma_filter_push(last, same);
    }
}

/// Every event on the agenda starts after now.
pub proof fn law_agenda_is_in_the_future(texts: Seq<Seq<char>>, zone: Seq<char>, now: Moment)
    requires
        agenda(texts, zone, now) is Some,
    ensures
        forall|i: int|
            0 <= i < (agenda(texts, zone, now)->0).len() ==> (#[trigger] (agenda(
                texts,
                zone,
                now,
            )->0)[i]).start.at.after(now),
{
    let day = local_day(zone, now)->0;
    let events = coming_events(texts, zone, day, now)->0;
    let list = by_start(events);
    law_coming_events_members(texts, zone, day, now);
    law_by_start_keeps_events(events);
    assert forall|i: int| 0 <= i < list.len() implies (#[trigger] list[i]).start.at.after(now) by {
        lemma_same_members(list, events, list[i]);
        let k = choose|k: int|
            0 <= k < texts.len() && comes_from(#[trigger] texts[k], zone, day, now, list[i]);
        assert(comes_from(texts[k], zone, day, now, list[i]));
    }
}

/// Lists with the same events have the same members.
proof fn lemma_same_members(a: Seq<EventView>, b: Seq<EventView>, event: EventView)
    requires
        a.to_multiset() == b.to_multiset(),
    ensures
        a.contains(event) == b.contains(event),
{
    broadcast use vstd::seq_lib::group_to_multiset_ensures;

    assert(a.contains(event) <==> a.to_multiset().count(event) > 0);
    assert(b.contains(event) <==> b.to_multiset().count(event) > 0);
}

/// Whether a text describes an event whose occurrence to come is the given one.
pub open spec fn comes_from(
    text: Seq<char>,
    zone: Seq<char>,
    day: int,
    now: Moment,
    placed: EventView,
) -> bool {
    event_in(text) is Some && coming(event_in(text)->0, zone, day, now) == Ok::<
        Option<EventView>,
        OutOfRange,
    >(Some(placed))
}

/// The events to come are those that some text describes, and no others.
pub proof fn law_coming_events_members(
    texts: Seq<Seq<char>>,
    zone: Seq<char>,
    day: int,
    now: Moment,
)
    requires
        coming_events(texts, zone, day, now) is Some,
    ensures
        forall|placed: EventView| #[trigger]
            (coming_events(texts, zone, day, now)->0).contains(placed) <==> exists|k: int|
                0 <= k < texts.len() && comes_from(#[trigger] texts[k], zone, day, now, placed),
    decreases texts.len(),
{
    let all = coming_events(texts, zone, day, now)->0;
    if texts.len() > 0 {
        let front = texts.drop_last();
        let last = texts[texts.len() - 1];
        law_coming_events_members(front, zone, day, now);
        let before = coming_events(front, zone, day, now)->0;
        assert forall|placed: EventView| #[trigger] all.contains(placed) <==> exists|k: int|
            0 <= k < texts.len() && comes_from(#[trigger] texts[k], zone, day, now, placed) by {
            if all.contains(placed) {
                if before.contains(placed) {
                    let k = choose|k: int|
                        0 <= k < front.len() && comes_from(
                            #[trigger] front[k],
                            zone,
                            day,
                            now,
                            placed,
                        );
                    assert(comes_from(texts[k], zone, day, now, placed));
                } else {
                    let i = choose|i: int| 0 <= i < all.len() && all[i] == placed;
                    assert(i < before.len() ==> before[i] == placed);
                    assert(comes_from(texts[texts.len() - 1], zone, day, now, placed));
                }
            }
            if exists|k: int|
                0 <= k < texts.len() && comes_from(#[trigger] texts[k], zone, day, now, placed) {
                let k = choose|k: int|
                    0 <= k < texts.len() && comes_from(#[trigger] texts[k], zone, day, now, placed);
                if k < front.len() {
                    assert(comes_from(front[k], zone, day, now, placed));
                    assert(before.contains(placed));
                    let i = choose|i: int| 0 <= i < before.len() && before[i] == placed;
                    assert(all[i] == placed);
                } else {
                    assert(all[all.len() - 1] == placed);
                }
            }
        }
    }
}

/// The first event on the agenda is one that some text describes, and none that a text describes
/// and that is still to come starts earlier.
pub proof fn law_next_is_earliest(texts: Seq<Seq<char>>, zone: Seq<char>, now: Moment)
    requires
        agenda(texts, zone, now) is Some,
        (agenda(texts, zone, now)->0).len() > 0,
    ensures
        ({
            let first = (agenda(texts, zone, now)->0)[0];
            let day = local_day(zone, now)->0;
            &&& exists|k: int|
                0 <= k < texts.len() && comes_from(#[trigger] texts[k], zone, day, now, first)
            &&& forall|k: int, placed: EventView|
                0 <= k < texts.len() && #[trigger] comes_from(texts[k], zone, day, now, placed)
                    ==> !first.start.at.after(placed.start.at)
        }),
{
    let day = local_day(zone, now)->0;
    let events = coming_events(texts, zone, day, now)->0;
    let list = by_start(events);
    law_coming_events_members(texts, zone, day, now);
    law_by_start_keeps_events(events);
    law_by_start_sorted(events);
    assert(list.contains(list[0]));
    lemma_same_members(list, events, list[0]);
    assert forall|k: int, placed: EventView|
        0 <= k < texts.len() && #[trigger] comes_from(
            texts[k],
            zone,
            day,
            now,
            placed,
        ) implies !list[0].start.at.after(placed.start.at) by {
        assert(events.contains(placed));
        lemma_same_members(list, events, placed);
        let i = choose|i: int| 0 <= i < list.len() && list[i] == placed;
        assert(i > 0 ==> !list[0].start.at.after(list[i].start.at));
    }
}

/// An event that was given in the zone of the panel is shown with the hours it was given with.
pub proof fn law_given_hours_are_shown(
    event: EventView,
    zone: Seq<char>,
    start: (Seq<char>, Seq<char>),
    end: (Seq<char>, Seq<char>),
)
    requires
        reads_as(event.start, start),
        reads_as(event.end, end),
        start.0 == zone,
        end.0 == zone,
    ensures
        hours_of(event, zone) == hour_minute(
            (parsed_time(start.1, "%Y%m%dT%H%M%S"@)->0).0 as int % 86_400,
        ) + "-"@ + hour_minute((parsed_time(end.1, "%Y%m%dT%H%M%S"@)->0).0 as int % 86_400),
{
}

/// The panel tells of an event exactly if the agenda is not empty: only then it shows a time.
pub proof fn law_time_shown_for_events_only(events: Seq<EventView>, zone: Seq<char>, now: Moment)
    ensures
        next_in(events, zone, now).time.len() > 0 <==> events.len() > 0,
        next_in(events, zone, now).countdown.len() > 0 <==> events.len() > 0,
{
    reveal_strlit("-");
    reveal_strlit("now");
    reveal_strlit("in ");
    if events.len() > 0 {
        assert(hours_of(events[0], zone).len() > 0);
    }
}

/// A time of so many hours and minutes is told by just these numbers: one that is zero is left
/// out, and where both are zero there is no number.
pub proof fn law_countdown_words(hours: int, minutes: int)
    requires
        0 <= hours,
        0 <= minutes < 60,
    ensures
        countdown(60 * hours + minutes) == (if hours == 0 && minutes == 0 {
            "now"@
        } else {
            "in "@ + (if hours == 0 {
                seq![]
            } else {
                decimal(hours as nat) + "h"@
            }) + (if minutes == 0 {
                seq![]
            } else {
                decimal(minutes as nat) + "m"@
            })
        }),
        forall|past: int| past < 0 ==> #[trigger] countdown(past) == "now"@,
{
    let total = 60 * hours + minutes;
    assert(total / 60 == hours);
    assert(total % 60 == minutes);
    let h = decimal(hours as nat) + "h"@;
    let m = decimal(minutes as nat) + "m"@;
    assert("in "@ + Seq::<char>::empty() + m == "in "@ + decimal(minutes as nat) + "m"@);
    assert("in "@ + h + Seq::<char>::empty() == "in "@ + decimal(hours as nat) + "h"@);
    assert("in "@ + h + m == "in "@ + decimal(hours as nat) + "h"@ + decimal(minutes as nat)
        + "m"@);
}

/// Whole minutes never exceed the time they are of and miss it by less than a minute; the same
/// holds of times before, with the signs turned.
pub proof fn law_whole_minutes(nanos: int)
    ensures
        nanos >= 0 ==> 0 <= nanos - whole_minutes(nanos) * 60_000_000_000 < 60_000_000_000,
        nanos >= 0 ==> whole_minutes(nanos) >= 0,
        whole_minutes(-nanos) == -whole_minutes(nanos),
{
}

/// The countdown on the panel names the hours and minutes from now to the start of the first
/// event: together they miss that time by less than a minute and never exceed it. Leap seconds
/// aside, that time is the difference of the two points in time.
pub proof fn law_panel_countdown(
    events: Seq<EventView>,
    zone: Seq<char>,
    now: Moment,
    hours: int,
    minutes: int,
)
    requires
        events.len() > 0,
        0 <= hours,
        0 <= minutes < 60,
        0 <= distance(events[0].start.at, now) - (60 * hours + minutes) * 60_000_000_000
            < 60_000_000_000,
    ensures
        next_in(events, zone, now).countdown == (if hours == 0 && minutes == 0 {
            "now"@
        } else {
            "in "@ + (if hours == 0 {
                seq![]
            } else {
                decimal(hours as nat) + "h"@
            }) + (if minutes == 0 {
                seq![]
            } else {
                decimal(minutes as nat) + "m"@
            })
        }),
        events[0].start.at.nanos < 1_000_000_000 && now.nanos < 1_000_000_000 ==> distance(
            events[0].start.at,
            now,
        ) == (events[0].start.at.secs - now.secs) * 1_000_000_000 + (events[0].start.at.nanos
            - now.nanos),
{
    law_countdown_words(hours, minutes);
    law_whole_minutes(distance(events[0].start.at, now));
    assert(whole_minutes(distance(events[0].start.at, now)) == 60 * hours + minutes);
}

/// The panel names the first event of the list as it is called and tells from when to when it
/// takes place by the wall clocks of the zone. Where there is no event it says so and tells no
/// time. Events after the first make no difference.
pub proof fn law_panel_tells_first_event(
    events: Seq<EventView>,
    others: Seq<EventView>,
    zone: Seq<char>,
    now: Moment,
)
    ensures
        events.len() == 0 ==> {
            let next = next_in(events, zone, now);
            next.name == "No upcoming events"@ && next.time.len() == 0 && next.countdown.len() == 0
        },
        events.len() > 0 ==> {
            let next = next_in(events, zone, now);
            let (start, end) = (events[0].start.at.secs, events[0].end.at.secs);
            &&& next.name == events[0].summary
            &&& next.time == hour_minute((start + zone_offset(zone, start)) % 86_400) + "-"@
                + hour_minute((end + zone_offset(zone, end)) % 86_400)
            &&& next == next_in(events + others, zone, now)
        },
{
}

/// The day on the wall clocks of a zone begins no later than the reading and ends after it; there
/// is one exactly if the reading is representable.
pub proof fn law_local_day(zone: Seq<char>, now: Moment, day: int)
    ensures
        local_day(zone, now) == Some(day) <==> {
            let reading = now.secs + zone_offset(zone, now.secs);
            in_range(reading) && day * 86_400 <= reading < day * 86_400 + 86_400
        },
{
}

/// A recurring event starts on a day at the only second at which the wall clocks of the zone show
/// that day and the time of day that the same wall clocks show at the original start. It starts
/// then if there is such a second, and else it does not start on that day.
pub proof fn law_start_on(event: EventView, zone: Seq<char>, day: int, start: Moment)
    requires
        valid_day(day),
    ensures
        start_on(event, zone, day) == Some(start) <==> {
            let reading = start.secs + zone_offset(zone, start.secs);
            let original = event.start.at.secs + zone_offset(zone, event.start.at.secs);
            &&& in_range(start.secs as int)
            &&& reading / 86_400 == day
            &&& reading % 86_400 == original % 86_400
            &&& forall|other: i64|
                in_range(other as int) && other + #[trigger] zone_offset(zone, other) == reading
                    ==> other == start.secs
            &&& start.nanos == event.start.at.nanos
        },
{
    let wall = same_time_on(event, zone, day);
    law_instant_is_only_reading(zone, start.secs, wall as i64);
    assert(wall / 86_400 == day);
    assert(wall % 86_400 == wall_secs(zone, event.start.at.secs) % 86_400);
    let reading = start.secs + zone_offset(zone, start.secs);
    assert(reading / 86_400 == day && reading % 86_400 == wall % 86_400 <==> reading == wall);
    if only_reading(zone, start.secs, wall as i64) {
        assert forall|other: i64|
            in_range(other as int) && other + #[trigger] zone_offset(zone, other)
                == reading implies other == start.secs by {
            assert(wall_secs(zone, other) == wall);
        }
    }
    if forall|other: i64|
        in_range(other as int) && other + #[trigger] zone_offset(zone, other) == reading
            ==> other == start.secs {
        assert forall|other: i64|
            in_range(other as int) && #[trigger] wall_secs(zone, other)
                == reading implies other == start.secs by {
            assert(other + zone_offset(zone, other) == reading);
        }
    }
}

/// An event moved to another start keeps everything but its two points in time; its end lies as
/// far after the new start as it lay after the old one.
pub proof fn law_rescheduled(event: EventView, start: Moment, placed: EventView)
    ensures
        rescheduled(event, start) == Some(placed) <==> {
            &&& placed.start.at == start
            &&& moved(start, distance(event.end.at, event.start.at)) == Some(placed.end.at)
            &&& placed.summary == event.summary
            &&& placed.start.zone == event.start.zone
            &&& placed.end.zone == event.end.zone
            &&& placed.recurring == event.recurring
        },
        rescheduled(event, start) is None <==> moved(
            start,
            distance(event.end.at, event.start.at),
        ) is None,
{
}

/// An event that does not recur takes place as it is, whatever the day.
pub proof fn law_single_event_takes_place(event: EventView, zone: Seq<char>, day: int)
    requires
        !event.recurring,
    ensures
        occurrence(event, zone, day) == Ok::<Option<EventView>, OutOfRange>(Some(event)),
{
}

/// A recurring event takes place on a day on which the wall clocks of the zone show, at its start
/// and only then, that day and the time of day that they show at the original start; it takes as
/// long as the original and is the same in all else.
pub proof fn law_recurring_event_takes_place(
    event: EventView,
    zone: Seq<char>,
    day: int,
    placed: EventView,
)
    requires
        event.recurring,
        valid_day(day),
    ensures
        occurrence(event, zone, day) == Ok::<Option<EventView>, OutOfRange>(Some(placed)) <==> {
            let reading = placed.start.at.secs + zone_offset(zone, placed.start.at.secs);
            let original = event.start.at.secs + zone_offset(zone, event.start.at.secs);
            &&& in_range(placed.start.at.secs as int)
            &&& reading / 86_400 == day
            &&& reading % 86_400 == original % 86_400
            &&& forall|other: i64|
                in_range(other as int) && other + #[trigger] zone_offset(zone, other) == reading
                    ==> other == placed.start.at.secs
            &&& placed.start.at.nanos == event.start.at.nanos
            &&& moved(placed.start.at, distance(event.end.at, event.start.at)) == Some(
                placed.end.at,
            )
            &&& placed.summary == event.summary
            &&& placed.start.zone == event.start.zone
            &&& placed.end.zone == event.end.zone
            &&& placed.recurring
        },
        occurrence(event, zone, day) == Ok::<Option<EventView>, OutOfRange>(None) <==> start_on(
            event,
            zone,
            day,
        ) is None,
{
    law_start_on(event, zone, day, placed.start.at);
    if start_on(event, zone, day) is Some {
        law_rescheduled(event, start_on(event, zone, day)->0, placed);
    }
}

/// Leap seconds aside, a recurring event takes on every day exactly the time that the original
/// takes, to the nanosecond.
pub proof fn law_recurring_event_keeps_length(
    event: EventView,
    zone: Seq<char>,
    day: int,
    placed: EventView,
)
    requires
        event.recurring,
        event.start.at.nanos < 1_000_000_000,
        event.end.at.nanos < 1_000_000_000,
        occurrence(event, zone, day) == Ok::<Option<EventView>, OutOfRange>(Some(placed)),
    ensures
        (placed.end.at.secs - placed.start.at.secs) * 1_000_000_000 + (placed.end.at.nanos
            - placed.start.at.nanos) == (event.end.at.secs - event.start.at.secs) * 1_000_000_000
            + (event.end.at.nanos - event.start.at.nanos),
{
    law_rescheduled(event, start_on(event, zone, day)->0, placed);
}

/// The occurrence of an event is to come exactly if it starts after now.
pub proof fn law_coming(
    event: EventView,
    zone: Seq<char>,
    day: int,
    now: Moment,
    placed: EventView,
)
    ensures
        coming(event, zone, day, now) == Ok::<Option<EventView>, OutOfRange>(Some(placed)) <==> {
            &&& occurrence(event, zone, day) == Ok::<Option<EventView>, OutOfRange>(Some(placed))
            &&& placed.start.at.secs > now.secs || (placed.start.at.secs == now.secs
                && placed.start.at.nanos > now.nanos)
        },
        coming(event, zone, day, now) is Err <==> occurrence(event, zone, day) is Err,
{
}

/// The texts of two lists give the events of the one and then those of the other. So no event of
/// one text depends on the other texts.
pub proof fn law_coming_events_concat(
    a: Seq<Seq<char>>,
    b: Seq<Seq<char>>,
    zone: Seq<char>,
    day: int,
    now: Moment,
)
    ensures
        coming_events(a + b, zone, day, now) == (match (
            coming_events(a, zone, day, now),
            coming_events(b, zone, day, now),
        ) {
            (Some(x), Some(y)) => Some(x + y),
            _ => None,
        }),
    decreases b.len(),
{
    if b.len() == 0 {
        assert(a + b == a);
        if let Some(x) = coming_events(a, zone, day, now) {
            assert(x + Seq::<EventView>::empty() == x);
        }
    } else {
        let front = b.drop_last();
        law_coming_events_concat(a, front, zone, day, now);
        assert((a + b).drop_last() == a + front);
        assert((a + b).last() == b.last());
        if let (Some(x), Some(y)) = (
            coming_events(a, zone, day, now),
            coming_events(front, zone, day, now),
        ) {
            assert forall|e: EventView| (x + y).push(e) == x + #[trigger] y.push(e) by {}
        }
    }
}

/// One text gives its event if that is to come, and nothing if it describes none or one that is
/// not to come.
pub proof fn law_coming_events_of_one_text(
    text: Seq<char>,
    zone: Seq<char>,
    day: int,
    now: Moment,
)
    ensures
        coming_events(seq![text], zone, day, now) == (match event_in(text) {
            None => Some(seq![]),
            Some(event) => match coming(event, zone, day, now) {
                Ok(Some(placed)) => Some(seq![placed]),
                Ok(None) => Some(seq![]),
                Err(_) => None,
            },
        }),
{
    reveal_with_fuel(coming_events, 2);
    assert(seq![text].drop_last() == Seq::<Seq<char>>::empty());
    if let Some(event) = event_in(text) {
        if let Ok(Some(placed)) = coming(event, zone, day, now) {
            assert(Seq::<EventView>::empty().push(placed) == seq![placed]);
        }
    }
}

/// The agenda holds the events to come, each as often as texts give it, in the order of their
/// starts, and those that start together in the order of the texts.
pub proof fn law_agenda(texts: Seq<Seq<char>>, zone: Seq<char>, now: Moment, start: Moment)
    ensures
        agenda(texts, zone, now) is Some <==> local_day(zone, now) is Some && coming_events(
            texts,
            zone,
            local_day(zone, now)->0,
            now,
        ) is Some,
        agenda(texts, zone, now) matches Some(list) ==> {
            let events = coming_events(texts, zone, local_day(zone, now)->0, now)->0;
            &&& list.to_multiset() == events.to_multiset()
            &&& list.len() == events.len()
            &&& forall|i: int, j: int|
                #![trigger list[i], list[j]]
                0 <= i < j < list.len() ==> !list[i].start.at.after(list[j].start.at)
            &&& list.filter(|e: EventView| e.start.at == start) == events.filter(
                |e: EventView| e.start.at == start,
            )
        },
{
    if agenda(texts, zone, now) is Some {
        let events = coming_events(texts, zone, local_day(zone, now)->0, now)->0;
        law_by_start_sorted(events);
        law_by_start_keeps_events(events);
        law_by_start_stable(events, start);
    }
}

/// No event to come is left out: an event that a text describes and that does not recur is on the
/// agenda, unchanged, if it starts after now, whatever day that is; and one that recurs is on it
/// as it takes place today if it then starts after now.
pub proof fn law_agenda_is_complete(
    texts: Seq<Seq<char>>,
    zone: Seq<char>,
    now: Moment,
    k: int,
    event: EventView,
    placed: EventView,
)
    requires
        agenda(texts, zone, now) is Some,
        0 <= k < texts.len(),
        event_in(texts[k]) == Some(event),
    ensures
        !event.recurring && event.start.at.after(now) ==> (agenda(texts, zone, now)->0).contains(
            event,
        ),
        event.recurring && occurrence(event, zone, local_day(zone, now)->0) == Ok::<
            Option<EventView>,
            OutOfRange,
        >(Some(placed)) && placed.start.at.after(now) ==> (agenda(texts, zone, now)->0).contains(
            placed,
        ),
{
    let day = local_day(zone, now)->0;
    let list = agenda(texts, zone, now)->0;
    let events = coming_events(texts, zone, day, now)->0;
    law_agenda(texts, zone, now, now);
    law_coming_events_members(texts, zone, day, now);
    if !event.recurring && event.start.at.after(now) {
        assert(comes_from(texts[k], zone, day, now, event));
        assert(events.contains(event));
        lemma_same_members(list, events, event);
    }
    if event.recurring && occurrence(event, zone, day) == Ok::<Option<EventView>, OutOfRange>(
        Some(placed),
    ) && placed.start.at.after(now) {
        assert(comes_from(texts[k], zone, day, now, placed));
        assert(events.contains(placed));
        lemma_same_members(list, events, placed);
    }
}

/// Nothing else is on the agenda: each of its events is one that some text describes, either
/// unchanged or, where it recurs, as it takes place today, and starts after now.
pub proof fn law_agenda_is_sound(
    texts: Seq<Seq<char>>,
    zone: Seq<char>,
    now: Moment,
    at: int,
) -> (k: int)
    requires
        agenda(texts, zone, now) is Some,
        0 <= at < (agenda(texts, zone, now)->0).len(),
    ensures
        0 <= k < texts.len(),
        event_in(texts[k]) is Some,
        ({
            let event = event_in(texts[k])->0;
            let placed = (agenda(texts, zone, now)->0)[at];
            &&& placed.start.at.after(now)
            &&& !event.recurring ==> placed == event
            &&& occurrence(event, zone, local_day(zone, now)->0) == Ok::<
                Option<EventView>,
                OutOfRange,
            >(Some(placed))
        }),
{
    let day = local_day(zone, now)->0;
    let list = agenda(texts, zone, now)->0;
    let events = coming_events(texts, zone, day, now)->0;
    law_agenda(texts, zone, now, now);
    law_coming_events_members(texts, zone, day, now);
    assert(list.contains(list[at]));
    lemma_same_members(list, events, list[at]);
    let k = choose|k: int|
        0 <= k < texts.len() && comes_from(#[trigger] texts[k], zone, day, now, list[at]);
    assert(comes_from(texts[k], zone, day, now, list[at]));
    k
}

/// The panel says that there is no event only if none that a text describes starts after now,
/// neither as it is nor, where it recurs, as it takes place today.
pub proof fn law_no_event_only_if_none_comes(
    texts: Seq<Seq<char>>,
    zone: Seq<char>,
    now: Moment,
    k: int,
    event: EventView,
    placed: EventView,
)
    requires
        agenda(texts, zone, now) is Some,
        next_in(agenda(texts, zone, now)->0, zone, now).time.len() == 0,
        0 <= k < texts.len(),
        event_in(texts[k]) == Some(event),
    ensures
        !event.recurring ==> !event.start.at.after(now),
        event.recurring && occurrence(event, zone, local_day(zone, now)->0) == Ok::<
            Option<EventView>,
            OutOfRange,
        >(Some(placed)) ==> !placed.start.at.after(now),
{
    law_agenda_is_complete(texts, zone, now, k, event, placed);
    law_time_shown_for_events_only(agenda(texts, zone, now)->0, zone, now);
}

/// An event is put in right before the events at the end of a list that start later than it.
pub proof fn law_inserted(events: Seq<EventView>, event: EventView, at: int)
    requires
        0 <= at <= events.len(),
        at > 0 ==> !events[at - 1].start.at.after(event.start.at),
        forall|i: int| at <= i < events.len() ==> (#[trigger] events[i]).start.at.after(
            event.start.at,
        ),
    ensures
        inserted(events, event) == events.insert(at, event),
{
    lemma_inserted_at(events, event, at);
}

/// A list stands for what its elements stand for, one by one and in the same order.
pub proof fn law_list_views(texts: Seq<String>, events: Seq<CalendarEvent>)
    ensures
        text_views(texts).len() == texts.len(),
        forall|i: int| 0 <= i < texts.len() ==> #[trigger] text_views(texts)[i] == texts[i]@,
        event_views(events).len() == events.len(),
        forall|i: int| 0 <= i < events.len() ==> #[trigger] event_views(events)[i] == events[i]@,
        forall|i: int|
            0 <= i < events.len() ==> (#[trigger] events[i])@ == (EventView {
                summary: events[i].summary@,
                start: ZonedView { at: events[i].start.at, zone: events[i].start.zone@ },
                end: ZonedView { at: events[i].end.at, zone: events[i].end.zone@ },
                recurring: events[i].recurring,
            }),
{
}

} // verus!
