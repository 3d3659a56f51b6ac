//! What is sent to the panel.

use vstd::prelude::*;
use vstd::string::*;

use crate::agenda::{
    agenda, next_event, next_in, text_views, upcoming_events, NextEvent, NextView, OutOfRange,
};
use crate::clock::{format_time, hour_minute_second, wall_secs, Moment, Zone};
use crate::notify::{Notification, NotificationView};

verus! {

/// The content of the panel.
#[derive(Debug)]
pub struct Payload {
    /// What the next event is called.
    pub event_name: String,
    /// From when to when it takes place.
    pub event_time: String,
    /// How long it is until then.
    pub event_countdown: String,
    /// The app that sent the latest notification.
    pub notif_app: String,
    /// The headline of the latest notification.
    pub notif_text: String,
}

/// What a [`Payload`] stands for.
#[verifier::ext_equal]
pub struct PayloadView {
    pub event_name: Seq<char>,
    pub event_time: Seq<char>,
    pub event_countdown: Seq<char>,
    pub notif_app: Seq<char>,
    pub notif_text: Seq<char>,
}

impl View for Payload {
    type V = PayloadView;

    open spec fn view(&self) -> PayloadView {
        PayloadView {
            event_name: self.event_name@,
            event_time: self.event_time@,
            event_countdown: self.event_countdown@,
            notif_app: self.notif_app@,
            notif_text: self.notif_text@,
        }
    }
}

/// A hexadecimal digit in lower case.
pub open spec fn hex_digit(d: int) -> char {
    if d < 10 {
        (48 + d) as char
    } else {
        (87 + d) as char
    }
}

/// A character within a JSON string: quotation marks, backslashes and control characters are
/// escaped, with a letter where there is one.
pub open spec fn json_char(c: char) -> Seq<char> {
    if c == '"' || c == '\\' {
        seq!['\\', c]
    } else if c == '\u{8}' {
        seq!['\\', 'b']
    } else if c == '\t' {
        seq!['\\', 't']
    } else if c == '\n' {
        seq!['\\', 'n']
    } else if c == '\u{c}' {
        seq!['\\', 'f']
    } else if c == '\r' {
        seq!['\\', 'r']
    } else if (c as int) < 32 {
        seq!['\\', 'u', '0', '0', hex_digit(c as int / 16), hex_digit(c as int % 16)]
    } else {
        seq![c]
    }
}

/// The characters of a text within a JSON string.
pub open spec fn json_chars(s: Seq<char>) -> Seq<char>
    decreases s.len(),
{
    if s.len() == 0 {
        seq![]
    } else {
        json_chars(s.drop_last()) + json_char(s.last())
    }
}

/// A text as a JSON string.
pub open spec fn json_string(s: Seq<char>) -> Seq<char> {
    seq!['"'] + json_chars(s) + seq!['"']
}

/// A member of a JSON object.
pub open spec fn json_member(name: Seq<char>, value: Seq<char>) -> Seq<char> {
    json_string(name) + seq![':'] + json_string(value)
}

/// Members of a JSON object, with commas between them.
pub open spec fn json_members(members: Seq<(Seq<char>, Seq<char>)>) -> Seq<char>
    decreases members.len(),
{
    if members.len() == 0 {
        seq![]
    } else if members.len() == 1 {
        json_member(members[0].0, members[0].1)
    } else {
        json_members(members.drop_last()) + seq![','] + json_member(
            members.last().0,
            members.last().1,
        )
    }
}

/// The lexicographic order of texts.
pub open spec fn precedes(a: Seq<char>, b: Seq<char>) -> bool {
    exists|k: int|
        #![trigger b[k]]
        0 <= k <= a.len() && k < b.len() && a.take(k) == b.take(k) && (k == a.len() || a[k] < b[k])
}

/// What the members of an object stand for.
pub open spec fn member_views(members: Seq<(String, String)>) -> Seq<(Seq<char>, Seq<char>)> {
    members.map_values(|m: (String, String)| (m.0@, m.1@))
}

/// `serde_json::Value` as an object with string members, written with `Display`: the members come
/// in the order of their names, without white space, the strings in quotation marks and escaped.
#[verifier::external_body]
fn json_object(members: Vec<(String, String)>) -> (text: String)
    requires
        forall|i: int|
            1 <= i < members@.len() ==> precedes(members@[i - 1].0@, #[trigger] members@[i].0@),
    ensures
        text@ == seq!['{'] + json_members(member_views(members@)) + seq!['}'],
{
    members.into_iter().collect::<serde_json::Value>().to_string()
}

/// The content of the panel as a JSON object, with its members in the order of their names.
pub open spec fn payload_json(p: PayloadView) -> Seq<char> {
    seq!['{'] + json_member("event_countdown"@, p.event_countdown) + seq![','] + json_member(
        "event_name"@,
        p.event_name,
    ) + seq![','] + json_member("event_time"@, p.event_time) + seq![','] + json_member(
        "notif_app"@,
        p.notif_app,
    ) + seq![','] + json_member("notif_text"@, p.notif_text) + seq!['}']
}

/// The names of the members are in order.
proof fn lemma_member_order()
    ensures
        precedes("event_countdown"@, "event_name"@),
        precedes("event_name"@, "event_time"@),
        precedes("event_time"@, "notif_app"@),
        precedes("notif_app"@, "notif_text"@),
{
    reveal_strlit("event_countdown");
    reveal_strlit("event_name");
    reveal_strlit("event_time");
    reveal_strlit("notif_app");
    reveal_strlit("notif_text");
    assert("event_countdown"@.take(6) == "event_name"@.take(6));
    assert("event_countdown"@[6] < "event_name"@[6]);
    assert("event_name"@.take(6) == "event_time"@.take(6));
    assert("event_name"@[6] < "event_time"@[6]);
    assert("event_time"@.take(0) == "notif_app"@.take(0));
    assert("event_time"@[0] < "notif_app"@[0]);
    assert("notif_app"@.take(6) == "notif_text"@.take(6));
    assert("notif_app"@[6] < "notif_text"@[6]);
}

impl Payload {
    /// The content as a JSON object.
    pub fn to_json(&self) -> (r: String)
        ensures
            r@ == payload_json(self@),
            r@ == "{\"event_countdown\":\""@ + json_chars(self.event_countdown@)
                + "\",\"event_name\":\""@ + json_chars(self.event_name@) + "\",\"event_time\":\""@
                + json_chars(self.event_time@) + "\",\"notif_app\":\""@ + json_chars(
                self.notif_app@,
            ) + "\",\"notif_text\":\""@ + json_chars(self.notif_text@) + "\"}"@,
    {
        let members: Vec<(String, String)> = vec![
            ("event_countdown".to_owned(), self.event_countdown.clone()),
            ("event_name".to_owned(), self.event_name.clone()),
            ("event_time".to_owned(), self.event_time.clone()),
            ("notif_app".to_owned(), self.notif_app.clone()),
            ("notif_text".to_owned(), self.notif_text.clone()),
        ];
        proof {
            lemma_member_order();
            let views = member_views(members@);
            assert(views.drop_last().drop_last().drop_last().drop_last() =~= seq![views[0]]);
            reveal_with_fuel(json_members, 5);
            assert(seq!['{'] + json_members(views) + seq!['}'] == payload_json(self@));
            law_payload_json(self@);
        }
        json_object(members)
    }
}

/// The content of the panel for the next event and the latest notification.
pub open spec fn payload_of(next: NextView, latest: Option<NotificationView>) -> PayloadView {
    PayloadView {
        event_name: next.name,
        event_time: next.time,
        event_countdown: next.countdown,
        notif_app: match latest {
            Some(notification) => notification.app_id(),
            None => seq![],
        },
        notif_text: match latest {
            Some(notification) => notification.summary,
            None => seq![],
        },
    }
}

/// What an optional notification stands for.
pub open spec fn notification_view(latest: Option<&Notification>) -> Option<NotificationView> {
    match latest {
        Some(notification) => Some(notification@),
        None => None,
    }
}

/// The content of the panel for the next event and the latest notification.
pub fn payload_for(next: NextEvent, latest: Option<&Notification>) -> (r: Payload)
    ensures
        r@ == payload_of(next@, notification_view(latest)),
        r.event_name@ == next.name@,
        r.event_time@ == next.time@,
        r.event_countdown@ == next.countdown@,
        latest is None ==> r.notif_app@.len() == 0 && r.notif_text@.len() == 0,
        latest matches Some(n) ==> r.notif_text@ == n.summary@ && r.notif_app@ == (
        if n.desktop_entry@.len() > 0 {
            n.desktop_entry@
        } else {
            n.app_name@
        }),
{
    let (notif_app, notif_text) = match latest {
        Some(notification) => (notification.app_id().to_owned(), notification.summary.clone()),
        None => (String::new(), String::new()),
    };
    Payload {
        event_name: next.name,
        event_time: next.time,
        event_countdown: next.countdown,
        notif_app,
        notif_text,
    }
}

/// The content of the panel at a point in time, from the texts of the calendar's objects and the
/// latest notification.
pub fn panel_content(
    texts: &[String],
    zone: &Zone,
    now: Moment,
    latest: Option<&Notification>,
) -> (r: Result<Payload, OutOfRange>)
    requires
        now.valid(),
    ensures
        match agenda(text_views(texts@), zone@, now) {
            Some(events) => r matches Ok(payload) && payload@ == payload_of(
                next_in(events, zone@, now),
                notification_view(latest),
            ),
            None => r is Err,
        },
        r matches Ok(payload) ==> {
            let next = next_in(agenda(text_views(texts@), zone@, now)->0, zone@, now);
            &&& payload.event_name@ == next.name
            &&& payload.event_time@ == next.time
            &&& payload.event_countdown@ == next.countdown
            &&& latest is None ==> payload.notif_app@.len() == 0 && payload.notif_text@.len() == 0
            &&& latest matches Some(n) ==> payload.notif_text@ == n.summary@ && payload.notif_app@
                == (if n.desktop_entry@.len() > 0 {
                n.desktop_entry@
            } else {
                n.app_name@
            })
        },
{
    let upcoming = upcoming_events(texts, zone, now)?;
    Ok(payload_for(next_event(upcoming.as_slice(), zone, now), latest))
}

/// The time of day in a zone.
pub fn time_of_day(now: Moment, zone: &Zone) -> (r: String)
    requires
        now.valid(),
    ensures
        r@ == hour_minute_second(wall_secs(zone@, now.secs) % 86_400, now.nanos as int),
{
    format_time(now, zone.offset_at(now), "%H:%M:%S")
}

/// The line that tells what is sent to the panel and when.
pub fn status_line(time: &str, json: &str) -> (r: String)
    ensures
        r@ == "["@ + time@ + "] -> "@ + json@,
{
    let mut out = "[".to_owned();
    out.append(time);
    out.append("] -> ");
    out.append(json);
    out
}

/// The characters of a text within a JSON string, taken from the front.
proof fn lemma_json_chars_front(s: Seq<char>)
    requires
        s.len() > 0,
    ensures
        json_chars(s) == json_char(s[0]) + json_chars(s.skip(1)),
    decreases s.len(),
{
    if s.len() == 1 {
        assert(s.drop_last() == Seq::<char>::empty());
        assert(s.skip(1) == Seq::<char>::empty());
        assert(json_chars(s) == json_char(s[0]) + json_chars(s.skip(1)));
    } else {
        lemma_json_chars_front(s.drop_last());
        assert(s.drop_last().skip(1) == s.skip(1).drop_last());
        assert(json_chars(s) == json_char(s[0]) + json_chars(s.skip(1)));
    }
}

/// The first character of a text can be told from its form within a JSON string.
proof fn lemma_json_char_decodes(a: char, b: char, x: Seq<char>, y: Seq<char>)
    requires
        json_char(a) + x == json_char(b) + y,
    ensures
        a == b,
        x == y,
{
    let s = json_char(a) + x;
    let t = json_char(b) + y;
    assert(json_char(a)[0] == s[0]);
    assert(json_char(b)[0] == t[0]);
    if json_char(a).len() > 1 {
        assert(json_char(a)[1] == s[1]);
        assert(json_char(b)[1] == t[1]);
        if json_char(a).len() > 2 {
            assert(json_char(a)[4] == s[4]);
            assert(json_char(a)[5] == s[5]);
            assert(json_char(b)[4] == t[4]);
            assert(json_char(b)[5] == t[5]);
        }
    }
    assert(a == b);
    let n = json_char(a).len() as int;
    assert(x == s.skip(n));
    assert(y == t.skip(n));
}

/// The end of a JSON string can be told, and what stands in it read back.
proof fn lemma_json_string_decodes(a: Seq<char>, b: Seq<char>, x: Seq<char>, y: Seq<char>)
    requires
        json_chars(a) + seq!['"'] + x == json_chars(b) + seq!['"'] + y,
    ensures
        a == b,
        x == y,
    decreases a.len() + b.len(),
{
    let s = json_chars(a) + seq!['"'] + x;
    let t = json_chars(b) + seq!['"'] + y;
    if a.len() == 0 && b.len() == 0 {
        assert(x == s.skip(1));
        assert(y == t.skip(1));
        assert(a == b);
    } else if a.len() == 0 {
        lemma_json_chars_front(b);
        assert(s[0] == '"');
        assert(t[0] == json_char(b[0])[0]);
    } else if b.len() == 0 {
        lemma_json_chars_front(a);
        assert(t[0] == '"');
        assert(s[0] == json_char(a[0])[0]);
    } else {
        lemma_json_chars_front(a);
        lemma_json_chars_front(b);
        let u = json_chars(a.skip(1)) + seq!['"'] + x;
        let v = json_chars(b.skip(1)) + seq!['"'] + y;
        assert(s == json_char(a[0]) + u);
        assert(t == json_char(b[0]) + v);
        lemma_json_char_decodes(a[0], b[0], u, v);
        lemma_json_string_decodes(a.skip(1), b.skip(1), x, y);
        assert(a == seq![a[0]] + a.skip(1));
        assert(b == seq![b[0]] + b.skip(1));
    }
}

/// The value of a member and what follows it can be told.
proof fn lemma_json_member_decodes(
    name: Seq<char>,
    a: Seq<char>,
    b: Seq<char>,
    x: Seq<char>,
    y: Seq<char>,
)
    requires
        json_member(name, a) + x == json_member(name, b) + y,
    ensures
        a == b,
        x == y,
{
    let head = json_string(name) + seq![':', '"'];
    let u = json_chars(a) + seq!['"'] + x;
    let v = json_chars(b) + seq!['"'] + y;
    assert(json_member(name, a) + x == head + u);
    assert(json_member(name, b) + y == head + v);
    assert(u == (head + u).skip(head.len() as int));
    assert(v == (head + v).skip(head.len() as int));
    lemma_json_string_decodes(a, b, x, y);
}

/// The value of a member and what follows the comma after it can be told.
proof fn lemma_json_next_decodes(
    name: Seq<char>,
    a: Seq<char>,
    b: Seq<char>,
    x: Seq<char>,
    y: Seq<char>,
)
    requires
        json_member(name, a) + (seq![','] + x) == json_member(name, b) + (seq![','] + y),
    ensures
        a == b,
        x == y,
{
    lemma_json_member_decodes(name, a, b, seq![','] + x, seq![','] + y);
    assert(x == (seq![','] + x).skip(1));
    assert(y == (seq![','] + y).skip(1));
}

/// Five members of an object, taken from the front.
proof fn lemma_five_members(
    a: Seq<char>,
    b: Seq<char>,
    c: Seq<char>,
    d: Seq<char>,
    e: Seq<char>,
)
    ensures
        (seq!['{'] + a + seq![','] + b + seq![','] + c + seq![','] + d + seq![','] + e + seq![
            '}',
        ]).skip(1) == a + (seq![','] + (b + (seq![','] + (c + (seq![','] + (d + (seq![','] + (e
            + seq!['}'])))))))),
{
}

/// Different contents of the panel are sent as different texts.
pub proof fn law_payload_readable(p: PayloadView, q: PayloadView)
    requires
        payload_json(p) == payload_json(q),
    ensures
        p == q,
{
    lemma_five_members(
        json_member("event_countdown"@, p.event_countdown),
        json_member("event_name"@, p.event_name),
        json_member("event_time"@, p.event_time),
        json_member("notif_app"@, p.notif_app),
        json_member("notif_text"@, p.notif_text),
    );
    lemma_five_members(
        json_member("event_countdown"@, q.event_countdown),
        json_member("event_name"@, q.event_name),
        json_member("event_time"@, q.event_time),
        json_member("notif_app"@, q.notif_app),
        json_member("notif_text"@, q.notif_text),
    );
    let p4 = json_member("notif_text"@, p.notif_text) + seq!['}'];
    let q4 = json_member("notif_text"@, q.notif_text) + seq!['}'];
    let p3 = json_member("notif_app"@, p.notif_app) + (seq![','] + p4);
    let q3 = json_member("notif_app"@, q.notif_app) + (seq![','] + q4);
    let p2 = json_member("event_time"@, p.event_time) + (seq![','] + p3);
    let q2 = json_member("event_time"@, q.event_time) + (seq![','] + q3);
    let p1 = json_member("event_name"@, p.event_name) + (seq![','] + p2);
    let q1 = json_member("event_name"@, q.event_name) + (seq![','] + q2);
    lemma_json_next_decodes("event_countdown"@, p.event_countdown, q.event_countdown, p1, q1);
    lemma_json_next_decodes("event_name"@, p.event_name, q.event_name, p2, q2);
    lemma_json_next_decodes("event_time"@, p.event_time, q.event_time, p3, q3);
    lemma_json_next_decodes("notif_app"@, p.notif_app, q.notif_app, p4, q4);
    lemma_json_member_decodes("notif_text"@, p.notif_text, q.notif_text, seq!['}'], seq!['}']);
}

/// The JSON form of the characters of one text after another is that of the one and then that of
/// the other.
pub proof fn law_json_chars_concat(a: Seq<char>, b: Seq<char>)
    ensures
        json_chars(a + b) == json_chars(a) + json_chars(b),
    decreases b.len(),
{
    if b.len() == 0 {
        assert(a + b == a);
        assert(json_chars(a) + Seq::<char>::empty() == json_chars(a));
    } else {
        law_json_chars_concat(a, b.drop_last());
        assert((a + b).drop_last() == a + b.drop_last());
        assert((a + b).last() == b.last());
        assert(json_chars(a) + (json_chars(b.drop_last()) + json_char(b.last())) == json_chars(a)
            + json_chars(b.drop_last()) + json_char(b.last()));
    }
}

/// A text without quotation marks, backslashes and control characters stands in JSON as it is.
pub proof fn law_json_chars_plain(s: Seq<char>)
    requires
        forall|i: int| 0 <= i < s.len() ==> s[i] != '"' && s[i] != '\\' && #[trigger] s[i] as int
            >= 32,
    ensures
        json_chars(s) == s,
    decreases s.len(),
{
    if s.len() > 0 {
        let front = s.drop_last();
        assert forall|i: int| 0 <= i < front.len() implies front[i] != '"' && front[i] != '\\'
            && #[trigger] front[i] as int >= 32 by {
            assert(s[i] as int >= 32);
        }
        assert(s[s.len() - 1] as int >= 32);
        law_json_chars_plain(front);
        assert(front + seq![s.last()] == s);
    }
}

/// The content of the panel is sent as an object in which each of the five texts stands under its
/// own name.
pub proof fn law_payload_json(p: PayloadView)
    ensures
        payload_json(p) == "{\"event_countdown\":\""@ + json_chars(p.event_countdown)
            + "\",\"event_name\":\""@ + json_chars(p.event_name) + "\",\"event_time\":\""@
            + json_chars(p.event_time) + "\",\"notif_app\":\""@ + json_chars(p.notif_app)
            + "\",\"notif_text\":\""@ + json_chars(p.notif_text) + "\"}"@,
{
    reveal_strlit("event_countdown");
    reveal_strlit("event_name");
    reveal_strlit("event_time");
    reveal_strlit("notif_app");
    reveal_strlit("notif_text");
    reveal_strlit("{\"event_countdown\":\"");
    reveal_strlit("\",\"event_name\":\"");
    reveal_strlit("\",\"event_time\":\"");
    reveal_strlit("\",\"notif_app\":\"");
    reveal_strlit("\",\"notif_text\":\"");
    reveal_strlit("\"}");
    lemma_member_text("event_countdown"@, p.event_countdown);
    lemma_member_text("event_name"@, p.event_name);
    lemma_member_text("event_time"@, p.event_time);
    lemma_member_text("notif_app"@, p.notif_app);
    lemma_member_text("notif_text"@, p.notif_text);
    let first = "{\"event_countdown\":\""@ + json_chars(p.event_countdown);
    assert("{\"event_countdown\":\""@ == seq!['{', '"'] + "event_countdown"@ + seq!['"', ':', '"']);
    assert(seq!['{'] + json_member("event_countdown"@, p.event_countdown) == first + seq!['"']);
    let second = first + "\",\"event_name\":\""@ + json_chars(p.event_name);
    lemma_next_member(first, "event_name"@, p.event_name, "\",\"event_name\":\""@);
    let third = second + "\",\"event_time\":\""@ + json_chars(p.event_time);
    lemma_next_member(second, "event_time"@, p.event_time, "\",\"event_time\":\""@);
    let fourth = third + "\",\"notif_app\":\""@ + json_chars(p.notif_app);
    lemma_next_member(third, "notif_app"@, p.notif_app, "\",\"notif_app\":\""@);
    let fifth = fourth + "\",\"notif_text\":\""@ + json_chars(p.notif_text);
    lemma_next_member(fourth, "notif_text"@, p.notif_text, "\",\"notif_text\":\""@);
    assert(fifth + seq!['"'] + seq!['}'] == fifth + "\"}"@);
}

/// The text of a member whose name needs no escapes.
proof fn lemma_member_text(name: Seq<char>, value: Seq<char>)
    requires
        forall|i: int| 0 <= i < name.len() ==> name[i] != '"' && name[i] != '\\'
            && #[trigger] name[i] as int >= 32,
    ensures
        json_member(name, value) == seq!['"'] + name + seq!['"', ':', '"'] + json_chars(value)
            + seq!['"'],
{
    law_json_chars_plain(name);
    assert(seq!['"'] + name + seq!['"'] + seq![':'] + (seq!['"'] + json_chars(value) + seq!['"'])
        == seq!['"'] + name + seq!['"', ':', '"'] + json_chars(value) + seq!['"']);
}

/// The text up to a member that follows others.
proof fn lemma_next_member(
    before: Seq<char>,
    name: Seq<char>,
    value: Seq<char>,
    between: Seq<char>,
)
    requires
        between =~= seq!['"', ',', '"'] + name + seq!['"', ':', '"'],
        json_member(name, value) == seq!['"'] + name + seq!['"', ':', '"'] + json_chars(value)
            + seq!['"'],
    ensures
        before + seq!['"'] + seq![','] + json_member(name, value) == before + between + json_chars(
            value,
        ) + seq!['"'],
{
    let chars = json_chars(value);
    assert(before + seq!['"'] + seq![','] + (seq!['"'] + name + seq!['"', ':', '"'] + chars + seq![
        '"',
    ]) == before + (seq!['"', ',', '"'] + name + seq!['"', ':', '"']) + chars + seq!['"']);
}

/// The panel shows the three texts of the next event and, of the latest notification, the best
/// identifier of its app and its headline; without a notification both are empty. The one makes no
/// difference to the other.
pub proof fn law_payload_parts(next: NextView, latest: Option<NotificationView>)
    ensures
        payload_of(next, latest).event_name == next.name,
        payload_of(next, latest).event_time == next.time,
        payload_of(next, latest).event_countdown == next.countdown,
        latest is None ==> payload_of(next, latest).notif_app.len() == 0 && payload_of(
            next,
            latest,
        ).notif_text.len() == 0,
        latest matches Some(n) ==> {
            &&& payload_of(next, latest).notif_text == n.summary
            &&& n.desktop_entry.len() > 0 ==> payload_of(next, latest).notif_app == n.desktop_entry
            &&& n.desktop_entry.len() == 0 ==> payload_of(next, latest).notif_app == n.app_name
        },
{
}

} // verus!
