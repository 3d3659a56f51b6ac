//! Desktop notifications: reading them from D-Bus messages, filtering and logging them.

use std::collections::BTreeMap;

use vstd::prelude::*;
use vstd::string::*;
use zbus::message::EndianSig;
use zbus::zvariant::serialized::{Context, Data};
use zbus::zvariant::{Fd, Value};

use crate::clock::{dashed_stamp, format_time, Moment};
use crate::config::NotificationConfig;
use crate::text::{
    distinct_names, equals_ignoring_ascii_case, same_ignoring_ascii_case, same_text,
};

verus! {

/// A desktop notification.
#[derive(Debug)]
pub struct Notification {
    /// The name the app gives itself.
    pub app_name: String,
    /// The desktop entry of the app; empty where none was given.
    pub desktop_entry: String,
    /// The headline.
    pub summary: String,
    /// The text.
    pub body: String,
}

/// What a [`Notification`] stands for.
#[verifier::ext_equal]
pub struct NotificationView {
    pub app_name: Seq<char>,
    pub desktop_entry: Seq<char>,
    pub summary: Seq<char>,
    pub body: Seq<char>,
}

impl View for Notification {
    type V = NotificationView;

    open spec fn view(&self) -> NotificationView {
        NotificationView {
            app_name: self.app_name@,
            desktop_entry: self.desktop_entry@,
            summary: self.summary@,
            body: self.body@,
        }
    }
}

impl Clone for Notification {
    fn clone(&self) -> (r: Self)
        ensures
            r@ == self@,
            r.app_name@ == self.app_name@,
            r.desktop_entry@ == self.desktop_entry@,
            r.summary@ == self.summary@,
            r.body@ == self.body@,
    {
        Notification {
            app_name: self.app_name.clone(),
            desktop_entry: self.desktop_entry.clone(),
            summary: self.summary.clone(),
            body: self.body.clone(),
        }
    }
}

impl NotificationView {
    /// The best identifier of the app: the desktop entry if there is one, else the app name.
    pub open spec fn app_id(self) -> Seq<char> {
        if self.desktop_entry.len() > 0 {
            self.desktop_entry
        } else {
            self.app_name
        }
    }

    /// Whether a list entry names the app, by its name or by its desktop entry.
    pub open spec fn named_by(self, entry: Seq<char>) -> bool {
        same_ignoring_ascii_case(entry, self.app_name) || same_ignoring_ascii_case(
            entry,
            self.desktop_entry,
        )
    }

    /// Whether some entry of a list names the app.
    pub open spec fn listed(self, apps: Seq<String>) -> bool {
        exists|i: int| 0 <= i < apps.len() && self.named_by(#[trigger] apps[i]@)
    }
}

impl Notification {
    /// Returns the best identifier for this app: the desktop entry if available, else the app
    /// name.
    pub fn app_id(&self) -> (r: &str)
        ensures
            r@ == self@.app_id(),
            self.desktop_entry@.len() > 0 ==> r@ == self.desktop_entry@,
            self.desktop_entry@.len() == 0 ==> r@ == self.app_name@,
    {
        if !self.desktop_entry.as_str().is_empty() {
            self.desktop_entry.as_str()
        } else {
            self.app_name.as_str()
        }
    }

    /// Checks if this notification matches any entry in the given app list.
    /// Matches against both the app name and the desktop entry.
    pub fn matches_filter(&self, apps: &[String]) -> (r: bool)
        ensures
            r == self@.listed(apps@),
            r <==> exists|i: int|
                0 <= i < apps@.len() && (same_ignoring_ascii_case(
                    #[trigger] apps@[i]@,
                    self.app_name@,
                ) || same_ignoring_ascii_case(apps@[i]@, self.desktop_entry@)),
    {
        let mut i: usize = 0;
        while i < apps.len()
            invariant
                i <= apps@.len(),
                forall|j: int| 0 <= j < i ==> !self@.named_by(#[trigger] apps@[j]@),
            decreases apps@.len() - i,
        {
            let entry = apps[i].as_str();
            if equals_ignoring_ascii_case(entry, self.app_name.as_str())
                || equals_ignoring_ascii_case(entry, self.desktop_entry.as_str()) {
                assert(self@.named_by(apps@[i as int]@));
                assert(same_ignoring_ascii_case(apps@[i as int]@, self.app_name@)
                    || same_ignoring_ascii_case(apps@[i as int]@, self.desktop_entry@));
                return true;
            }
            i += 1;
        }
        assert forall|j: int| 0 <= j < apps@.len() implies !(same_ignoring_ascii_case(
            #[trigger] apps@[j]@,
            self.app_name@,
        ) || same_ignoring_ascii_case(apps@[j]@, self.desktop_entry@)) by {
            assert(!self@.named_by(apps@[j]@));
        }
        false
    }
}

/// Whether an app may be shown: in whitelist mode if it is listed, in any other mode if it is not.
pub open spec fn may_show(mode: Seq<char>, listed: bool) -> bool {
    if mode == "whitelist"@ {
        listed
    } else {
        !listed
    }
}

/// Whether the filter lets a notification through.
pub fn passes_filter(filter: &NotificationConfig, notification: &Notification) -> (r: bool)
    ensures
        r == may_show(filter.filter_mode@, notification@.listed(filter.filter_apps@)),
        filter.filter_mode@ == "whitelist"@ ==> r == notification@.listed(filter.filter_apps@),
        filter.filter_mode@ != "whitelist"@ ==> r != notification@.listed(filter.filter_apps@),
{
    let listed = notification.matches_filter(filter.filter_apps.as_slice());
    if same_text(filter.filter_mode.as_str(), "whitelist") {
        listed
    } else {
        !listed
    }
}

/// The line that is written to the log for a notification.
pub fn log_line(timestamp: &str, notification: &Notification) -> (r: String)
    ensures
        r@ == "["@ + timestamp@ + "] app_name=\""@ + notification.app_name@
            + "\" desktop_entry=\""@ + notification.desktop_entry@ + "\" summary=\""@
            + notification.summary@ + "\" body=\""@ + notification.body@ + "\"\n"@,
{
    let mut out = "[".to_owned();
    out.append(timestamp);
    out.append("] app_name=\"");
    out.append(notification.app_name.as_str());
    out.append("\" desktop_entry=\"");
    out.append(notification.desktop_entry.as_str());
    out.append("\" summary=\"");
    out.append(notification.summary.as_str());
    out.append("\" body=\"");
    out.append(notification.body.as_str());
    out.append("\"\n");
    out
}

/// The line that is written to the log for a notification at a point in time, stamped with the
/// date and the time that wall clocks `offset` seconds ahead of UTC show then.
pub fn log_line_at(at: Moment, offset: i32, notification: &Notification) -> (r: String)
    requires
        at.valid(),
        -86_400 < offset < 86_400,
    ensures
        r@ == "["@ + dashed_stamp(at.secs + offset, at.nanos as int) + "] app_name=\""@
            + notification.app_name@ + "\" desktop_entry=\""@ + notification.desktop_entry@
            + "\" summary=\""@ + notification.summary@ + "\" body=\""@ + notification.body@
            + "\"\n"@,
{
    let timestamp = format_time(at, offset, "%Y-%m-%d %H:%M:%S");
    log_line(timestamp.as_str(), notification)
}

/// A hint of a `Notify` call.
#[derive(Debug)]
pub struct Hint {
    /// The name of the hint.
    pub name: String,
    /// Its value, where that is a string.
    pub text: Option<String>,
}

/// The arguments of a `Notify` call that matter here.
#[derive(Debug)]
pub struct NotifyCall {
    /// The name the app gives itself.
    pub app_name: String,
    /// The headline.
    pub summary: String,
    /// The text.
    pub body: String,
    /// The hints, in the order of their names. In a call that was read no name occurs twice.
    pub hints: Vec<Hint>,
}

/// What a [`NotifyCall`] stands for.
#[verifier::ext_equal]
pub struct NotifyView {
    pub app_name: Seq<char>,
    pub summary: Seq<char>,
    pub body: Seq<char>,
    pub hints: Seq<(Seq<char>, Option<Seq<char>>)>,
}

impl View for Hint {
    type V = (Seq<char>, Option<Seq<char>>);

    open spec fn view(&self) -> (Seq<char>, Option<Seq<char>>) {
        (
            self.name@,
            match self.text {
                Some(text) => Some(text@),
                None => None,
            },
        )
    }
}

impl View for NotifyCall {
    type V = NotifyView;

    open spec fn view(&self) -> NotifyView {
        NotifyView {
            app_name: self.app_name@,
            summary: self.summary@,
            body: self.body@,
            hints: self.hints@.map_values(|hint: Hint| hint@),
        }
    }
}

/// A file descriptor that came with a D-Bus message.
#[verifier::external_type_specification]
#[verifier::external_body]
pub struct ExFd<'f>(Fd<'f>);

/// The app name, the summary, the body and the hints that the body of a D-Bus message carries as
/// the arguments of a `Notify` call. `signature` is the signature of the message body, `bytes` its
/// encoding, `endian` the byte-order mark of the message and `descriptors` the number of file
/// descriptors that came with it.
pub uninterp spec fn notify_arguments(
    signature: Seq<char>,
    bytes: Seq<u8>,
    endian: u8,
    descriptors: nat,
) -> Option<(Seq<char>, Seq<char>, Seq<char>, Seq<(Seq<char>, Option<Seq<char>>)>)>;

/// `zbus::zvariant::serialized::Data::deserialize_for_dynamic_signature`, at the type of the
/// arguments of a `Notify` call: what it reads is a function of the signature, the bytes, the byte
/// order and the number of file descriptors. The bytes refer to a descriptor by its position, so
/// which descriptors there are makes no difference to the texts. The hints come as a map, so no two
/// of them share a name. The encoding is left unsaid.
#[verifier::external_body]
fn deserialize_notify(
    signature: &str,
    bytes: &[u8],
    endian: u8,
    descriptors: &[Fd<'_>],
) -> (r: Option<NotifyCall>)
    ensures
        match notify_arguments(signature@, bytes@, endian, descriptors@.len()) {
            Some((app_name, summary, body, hints)) => r matches Some(call) && call@ == (
            NotifyView { app_name, summary, body, hints }),
            None => r is None,
        },
        r matches Some(call) ==> distinct_names(call@.hints),
{
    let order = EndianSig::try_from(endian).ok()?;
    let data = Data::new_borrowed_fds(bytes, Context::new_dbus(order.into(), 0), descriptors);
    let (app_name, _, _, summary, body, _, hints, _): (
        String, u32, String, String, String, Vec<String>, BTreeMap<String, Value<'_>>, i32,
    ) = data.deserialize_for_dynamic_signature(signature).ok()?.0;
    let hints = hints.into_iter().map(|(name, v)| Hint { name, text: String::try_from(v).ok() });
    Some(NotifyCall { app_name, summary, body, hints: hints.collect() })
}

/// The string value of the first hint of a name; empty where there is no such hint or where its
/// value is no string.
pub open spec fn hint_text(
    hints: Seq<(Seq<char>, Option<Seq<char>>)>,
    name: Seq<char>,
) -> Seq<char>
    decreases hints.len(),
{
    if hints.len() == 0 {
        seq![]
    } else if hints[0].0 == name {
        match hints[0].1 {
            Some(text) => text,
            None => seq![],
        }
    } else {
        hint_text(hints.skip(1), name)
    }
}

/// The notification that a `Notify` call announces.
pub open spec fn announced(call: NotifyView) -> NotificationView {
    NotificationView {
        app_name: call.app_name,
        desktop_entry: hint_text(call.hints, "desktop-entry"@),
        summary: call.summary,
        body: call.body,
    }
}

/// Takes the string value of the first hint of a name.
fn take_hint(hints: Vec<Hint>, name: &str) -> (r: String)
    ensures
        r@ == hint_text(hints@.map_values(|hint: Hint| hint@), name@),
{
    let ghost views = hints@.map_values(|hint: Hint| hint@);
    let mut i: usize = 0;
    assert(views.skip(0) == views);
    while i < hints.len()
        invariant
            views == hints@.map_values(|hint: Hint| hint@),
            i <= hints@.len(),
            hint_text(views, name@) == hint_text(views.skip(i as int), name@),
        decreases hints@.len() - i,
    {
        assert(views.skip(i as int)[0] == hints@[i as int]@);
        assert(views.skip(i as int).skip(1) == views.skip(i + 1));
        if same_text(hints[i].name.as_str(), name) {
            return match &hints[i].text {
                Some(text) => text.clone(),
                None => String::new(),
            };
        }
        i += 1;
    }
    assert(views.skip(hints@.len() as int).len() == 0);
    String::new()
}

/// The notification that a `Notify` call announces: its desktop entry comes from the hint of that
/// name.
pub fn notification_of(call: NotifyCall) -> (r: Notification)
    ensures
        r@ == announced(call@),
        r.app_name@ == call.app_name@,
        r.desktop_entry@ == hint_text(call@.hints, "desktop-entry"@),
        r.summary@ == call.summary@,
        r.body@ == call.body@,
{
    Notification {
        app_name: call.app_name,
        desktop_entry: take_hint(call.hints, "desktop-entry"),
        summary: call.summary,
        body: call.body,
    }
}

/// The notification that the body of a D-Bus message carries, if it can be read.
pub open spec fn notification_in(
    signature: Seq<char>,
    bytes: Seq<u8>,
    endian: u8,
    descriptors: nat,
) -> Option<NotificationView> {
    match notify_arguments(signature, bytes, endian, descriptors) {
        Some((app_name, summary, body, hints)) => Some(
            announced(NotifyView { app_name, summary, body, hints }),
        ),
        None => None,
    }
}

/// Reads the notification that the body of a D-Bus message with the signature
/// `susssasa{sv}i` carries, given the file descriptors that came with the message. Where there is
/// one, no two of its hints share a name.
pub fn parse_notify_body(
    signature: &str,
    bytes: &[u8],
    endian: u8,
    descriptors: &[Fd<'_>],
) -> (r: Option<Notification>)
    ensures
        match notification_in(signature@, bytes@, endian, descriptors@.len()) {
            Some(view) => r matches Some(notification) && notification@ == view,
            None => r is None,
        },
        r matches Some(notification) ==> {
            let (app_name, summary, body, hints) = notify_arguments(
                signature@,
                bytes@,
                endian,
                descriptors@.len(),
            )->0;
            &&& notification.app_name@ == app_name
            &&& notification.desktop_entry@ == hint_text(hints, "desktop-entry"@)
            &&& notification.summary@ == summary
            &&& notification.body@ == body
        },
        r is Some <==> notify_arguments(signature@, bytes@, endian, descriptors@.len()) is Some,
        r is Some ==> distinct_names(
            (notify_arguments(signature@, bytes@, endian, descriptors@.len())->0).3,
        ),
{
    let call = deserialize_notify(signature, bytes, endian, descriptors)?;
    Some(notification_of(call))
}

/// What the monitor does about a D-Bus message.
#[derive(Debug)]
pub enum MonitorStep {
    /// The message is no `Notify` call.
    Skip,
    /// The message is a `Notify` call whose arguments cannot be read.
    Unreadable,
    /// The notification is logged and shown.
    Show(Notification),
    /// The notification is logged and kept from the panel.
    Hide(Notification),
}

/// What a [`MonitorStep`] stands for.
#[verifier::ext_equal]
pub enum StepView {
    Skip,
    Unreadable,
    Show(NotificationView),
    Hide(NotificationView),
}

impl View for MonitorStep {
    type V = StepView;

    open spec fn view(&self) -> StepView {
        match self {
            MonitorStep::Skip => StepView::Skip,
            MonitorStep::Unreadable => StepView::Unreadable,
            MonitorStep::Show(notification) => StepView::Show(notification@),
            MonitorStep::Hide(notification) => StepView::Hide(notification@),
        }
    }
}

/// What an optional text stands for.
pub open spec fn optional_text(text: Option<&str>) -> Option<Seq<char>> {
    match text {
        Some(text) => Some(text@),
        None => None,
    }
}

/// Whether a message with this member and this interface calls `Notify`.
pub open spec fn calls_notify(member: Option<Seq<char>>, interface: Option<Seq<char>>) -> bool {
    member == Some("Notify"@) && interface == Some("org.freedesktop.Notifications"@)
}

/// Whether a message with this member and this interface calls `Notify`.
pub fn is_notify_call(member: Option<&str>, interface: Option<&str>) -> (r: bool)
    ensures
        r == calls_notify(optional_text(member), optional_text(interface)),
        r <==> (member matches Some(m) && m@ == "Notify"@) && (interface matches Some(i) && i@
            == "org.freedesktop.Notifications"@),
{
    match (member, interface) {
        (Some(member), Some(interface)) => same_text(member, "Notify") && same_text(
            interface,
            "org.freedesktop.Notifications",
        ),
        _ => false,
    }
}

/// What is done about a `Notify` call from which this notification, if any, was read.
pub open spec fn verdict(
    mode: Seq<char>,
    apps: Seq<String>,
    read: Option<NotificationView>,
) -> StepView {
    match read {
        None => StepView::Unreadable,
        Some(notification) => if may_show(mode, notification.listed(apps)) {
            StepView::Show(notification)
        } else {
            StepView::Hide(notification)
        },
    }
}

/// Decides what is done about a `Notify` call from which this notification, if any, was read.
pub fn judge(filter: &NotificationConfig, read: Option<Notification>) -> (r: MonitorStep)
    ensures
        r@ == verdict(
            filter.filter_mode@,
            filter.filter_apps@,
            match read {
                Some(notification) => Some(notification@),
                None => None,
            },
        ),
        read is None <==> r is Unreadable,
        read matches Some(notification) ==> ((filter.filter_mode@ == "whitelist"@) == (exists|
            i: int,
        |
            0 <= i < filter.filter_apps@.len() && (same_ignoring_ascii_case(
                #[trigger] filter.filter_apps@[i]@,
                notification.app_name@,
            ) || same_ignoring_ascii_case(
                filter.filter_apps@[i]@,
                notification.desktop_entry@,
            ))) <==> r is Show),
        read matches Some(notification) ==> match r {
            MonitorStep::Show(n) => n == notification,
            MonitorStep::Hide(n) => n == notification,
            _ => false,
        },
{
    proof {
        if read is Some {
            law_listed((read->0)@, filter.filter_apps@);
        }
    }
    match read {
        None => MonitorStep::Unreadable,
        Some(notification) => if passes_filter(filter, &notification) {
            MonitorStep::Show(notification)
        } else {
            MonitorStep::Hide(notification)
        },
    }
}

/// Decides what is done about a D-Bus message.
pub fn monitor_step(
    filter: &NotificationConfig,
    member: Option<&str>,
    interface: Option<&str>,
    signature: &str,
    bytes: &[u8],
    endian: u8,
    descriptors: &[Fd<'_>],
) -> (r: MonitorStep)
    ensures
        r@ == (if calls_notify(optional_text(member), optional_text(interface)) {
            verdict(
                filter.filter_mode@,
                filter.filter_apps@,
                notification_in(signature@, bytes@, endian, descriptors@.len()),
            )
        } else {
            StepView::Skip
        }),
        r is Skip <==> !((member matches Some(m) && m@ == "Notify"@) && (interface matches Some(i)
            && i@ == "org.freedesktop.Notifications"@)),
        !(r is Skip) ==> (r is Unreadable <==> notify_arguments(
            signature@,
            bytes@,
            endian,
            descriptors@.len(),
        ) is None),
        r matches MonitorStep::Show(n) ==> {
            let read = notification_in(signature@, bytes@, endian, descriptors@.len())->0;
            &&& n.app_name@ == read.app_name && n.desktop_entry@ == read.desktop_entry
            &&& n.summary@ == read.summary && n.body@ == read.body
            &&& (filter.filter_mode@ == "whitelist"@) == read.listed(filter.filter_apps@)
        },
        r matches MonitorStep::Hide(n) ==> {
            let read = notification_in(signature@, bytes@, endian, descriptors@.len())->0;
            &&& n.app_name@ == read.app_name && n.desktop_entry@ == read.desktop_entry
            &&& n.summary@ == read.summary && n.body@ == read.body
            &&& (filter.filter_mode@ == "whitelist"@) != read.listed(filter.filter_apps@)
        },
{
    if !is_notify_call(member, interface) {
        return MonitorStep::Skip;
    }
    judge(filter, parse_notify_body(signature, bytes, endian, descriptors))
}

/// The notification on the panel after a step: one that is shown replaces the one before.
pub open spec fn latest_after(latest: Option<NotificationView>, step: StepView) -> Option<
    NotificationView,
> {
    match step {
        StepView::Show(notification) => Some(notification),
        _ => latest,
    }
}

/// What the notification on the panel stands for.
pub open spec fn latest_view(latest: Option<Notification>) -> Option<NotificationView> {
    match latest {
        Some(notification) => Some(notification@),
        None => None,
    }
}

/// Puts a notification that is shown on the panel in the place of the one before.
pub fn update_latest(latest: &mut Option<Notification>, step: &MonitorStep)
    ensures
        latest_view(*final(latest)) == latest_after(latest_view(*old(latest)), step@),
        step matches MonitorStep::Show(shown) ==> (*final(latest) matches Some(n) && n.app_name@
            == shown.app_name@ && n.desktop_entry@ == shown.desktop_entry@ && n.summary@
            == shown.summary@ && n.body@ == shown.body@),
        !(step is Show) ==> *final(latest) == *old(latest),
{
    if let MonitorStep::Show(notification) = step {
        *latest = Some(notification.clone());
    }
}

/// The line that tells of a notification that is shown.
pub fn shown_line(notification: &Notification) -> (r: String)
    ensures
        r@ == "[notif] "@ + notification@.app_id() + " | "@ + notification.summary@ + " | "@
            + notification.body@,
{
    let mut out = "[notif] ".to_owned();
    out.append(notification.app_id());
    out.append(" | ");
    out.append(notification.summary.as_str());
    out.append(" | ");
    out.append(notification.body.as_str());
    out
}

/// The line that tells of a notification that is kept from the panel.
pub fn filtered_line(notification: &Notification) -> (r: String)
    ensures
        r@ == "[notif] FILTERED: "@ + notification@.app_id() + " | "@ + notification.summary@,
{
    let mut out = "[notif] FILTERED: ".to_owned();
    out.append(notification.app_id());
    out.append(" | ");
    out.append(notification.summary.as_str());
    out
}

/// The whitelist mode and any other mode are complementary: of every app exactly one of them shows
/// the notifications.
pub proof fn law_modes_are_complementary(mode: Seq<char>, listed: bool)
    requires
        mode != "whitelist"@,
    ensures
        may_show("whitelist"@, listed) != may_show(mode, listed),
{
}

/// With an empty list the blacklist mode shows everything and the whitelist mode nothing.
pub proof fn law_empty_list(notification: NotificationView)
    ensures
        may_show("blacklist"@, notification.listed(seq![])),
        !may_show("whitelist"@, notification.listed(seq![])),
{
    reveal_strlit("blacklist");
    reveal_strlit("whitelist");
    assert("blacklist"@[0] != "whitelist"@[0]);
}

/// The case of ASCII letters in a list entry makes no difference.
pub proof fn law_entries_ignore_case(
    notification: NotificationView,
    entry: Seq<char>,
    other: Seq<char>,
)
    requires
        same_ignoring_ascii_case(entry, other),
    ensures
        notification.named_by(entry) == notification.named_by(other),
{
    let app = notification.app_name;
    let desktop = notification.desktop_entry;
    crate::text::law_ignoring_case_is_equivalence(entry, other, app);
    crate::text::law_ignoring_case_is_equivalence(other, entry, app);
    crate::text::law_ignoring_case_is_equivalence(entry, other, desktop);
    crate::text::law_ignoring_case_is_equivalence(other, entry, desktop);
}

/// A list with one more entry names at least the apps that it named before; so it shows at least
/// as much as a whitelist and at most as much as a blacklist.
pub proof fn law_longer_list(notification: NotificationView, apps: Seq<String>, entry: String)
    ensures
        notification.listed(apps.push(entry)) == (notification.listed(apps)
            || notification.named_by(entry@)),
{
    let all = apps.push(entry);
    if notification.listed(apps) {
        let i = choose|i: int| 0 <= i < apps.len() && notification.named_by(#[trigger] apps[i]@);
        assert(notification.named_by(all[i]@));
    }
    if notification.named_by(entry@) {
        assert(notification.named_by(all[apps.len() as int]@));
    }
    if notification.listed(all) {
        let i = choose|i: int| 0 <= i < all.len() && notification.named_by(#[trigger] all[i]@);
        assert(i < apps.len() ==> notification.named_by(apps[i]@));
    }
}

/// The value of a hint is found wherever the hint stands, as long as no earlier one has its name.
pub proof fn law_hint_found(
    hints: Seq<(Seq<char>, Option<Seq<char>>)>,
    name: Seq<char>,
    at: int,
    text: Seq<char>,
)
    requires
        0 <= at < hints.len(),
        hints[at] == (name, Some(text)),
        forall|i: int| 0 <= i < at ==> (#[trigger] hints[i]).0 != name,
    ensures
        hint_text(hints, name) == text,
    decreases hints.len(),
{
    if at > 0 {
        assert(hints[0].0 != name);
        let rest = hints.skip(1);
        assert forall|i: int| 0 <= i < at - 1 implies (#[trigger] rest[i]).0 != name by {
            assert(hints[i + 1].0 != name);
        }
        law_hint_found(rest, name, at - 1, text);
    }
}

/// Where no two hints share a name, the value of a hint is found wherever the hint stands; it is
/// empty where it is no string.
pub proof fn law_hint_found_anywhere(
    hints: Seq<(Seq<char>, Option<Seq<char>>)>,
    name: Seq<char>,
    at: int,
)
    requires
        distinct_names(hints),
        0 <= at < hints.len(),
        hints[at].0 == name,
    ensures
        hint_text(hints, name) == (match hints[at].1 {
            Some(text) => text,
            None => seq![],
        }),
    decreases hints.len(),
{
    if at > 0 {
        assert(hints[0].0 != hints[at].0);
        let rest = hints.skip(1);
        assert forall|i: int, j: int|
            #![trigger rest[i], rest[j]]
            0 <= i < j < rest.len() implies rest[i].0 != rest[j].0 by {
            assert(hints[i + 1].0 != hints[j + 1].0);
        }
        law_hint_found_anywhere(rest, name, at - 1);
    }
}

/// Without a hint of the name there is no value.
pub proof fn law_hint_missing(hints: Seq<(Seq<char>, Option<Seq<char>>)>, name: Seq<char>)
    requires
        forall|i: int| 0 <= i < hints.len() ==> (#[trigger] hints[i]).0 != name,
    ensures
        hint_text(hints, name).len() == 0,
    decreases hints.len(),
{
    if hints.len() > 0 {
        assert(hints[0].0 != name);
        let rest = hints.skip(1);
        assert forall|i: int| 0 <= i < rest.len() implies (#[trigger] rest[i]).0 != name by {
            assert(hints[i + 1].0 != name);
        }
        law_hint_missing(rest, name);
    }
}

/// The notification on the panel after a run of steps.
pub open spec fn latest_of(latest: Option<NotificationView>, steps: Seq<StepView>) -> Option<
    NotificationView,
>
    decreases steps.len(),
{
    if steps.len() == 0 {
        latest
    } else {
        latest_after(latest_of(latest, steps.drop_last()), steps.last())
    }
}

/// After a run of steps the panel has the notification that was shown last.
pub proof fn law_last_shown_stays(
    latest: Option<NotificationView>,
    steps: Seq<StepView>,
    at: int,
    notification: NotificationView,
)
    requires
        0 <= at < steps.len(),
        steps[at] == StepView::Show(notification),
        forall|i: int| at < i < steps.len() ==> !((#[trigger] steps[i]) is Show),
    ensures
        latest_of(latest, steps) == Some(notification),
    decreases steps.len(),
{
    if at < steps.len() - 1 {
        assert(!(steps[steps.len() - 1] is Show));
        let front = steps.drop_last();
        assert forall|i: int| at < i < front.len() implies !((#[trigger] front[i]) is Show) by {
            assert(!(steps[i] is Show));
        }
        law_last_shown_stays(latest, front, at, notification);
    }
}

/// A run of steps in which nothing is shown leaves the panel as it was.
pub proof fn law_nothing_shown_changes_nothing(
    latest: Option<NotificationView>,
    steps: Seq<StepView>,
)
    requires
        forall|i: int| 0 <= i < steps.len() ==> !((#[trigger] steps[i]) is Show),
    ensures
        latest_of(latest, steps) == latest,
    decreases steps.len(),
{
    if steps.len() > 0 {
        assert(!(steps[steps.len() - 1] is Show));
        let front = steps.drop_last();
        assert forall|i: int| 0 <= i < front.len() implies !((#[trigger] front[i]) is Show) by {
            assert(!(steps[i] is Show));
        }
        law_nothing_shown_changes_nothing(latest, front);
    }
}

/// The best identifier of an app is its desktop entry whenever that is not empty, and is empty only
/// if the app has neither a desktop entry nor a name.
pub proof fn law_app_id(notification: NotificationView)
    ensures
        notification.desktop_entry.len() > 0 ==> notification.app_id()
            == notification.desktop_entry,
        notification.desktop_entry.len() == 0 ==> notification.app_id() == notification.app_name,
        notification.app_id().len() == 0 <==> notification.desktop_entry.len() == 0
            && notification.app_name.len() == 0,
{
}

/// An app is listed exactly if some entry of the list is, up to the case of ASCII letters, its name
/// or its desktop entry.
pub proof fn law_listed(notification: NotificationView, apps: Seq<String>)
    ensures
        notification.listed(apps) <==> exists|i: int|
            0 <= i < apps.len() && (same_ignoring_ascii_case(
                #[trigger] apps[i]@,
                notification.app_name,
            ) || same_ignoring_ascii_case(apps[i]@, notification.desktop_entry)),
{
    if notification.listed(apps) {
        let i = choose|i: int| 0 <= i < apps.len() && notification.named_by(#[trigger] apps[i]@);
        assert(same_ignoring_ascii_case(apps[i]@, notification.app_name)
            || same_ignoring_ascii_case(apps[i]@, notification.desktop_entry));
    }
    if exists|i: int|
        0 <= i < apps.len() && (same_ignoring_ascii_case(#[trigger] apps[i]@, notification.app_name)
            || same_ignoring_ascii_case(apps[i]@, notification.desktop_entry)) {
        let i = choose|i: int|
            0 <= i < apps.len() && (same_ignoring_ascii_case(
                #[trigger] apps[i]@,
                notification.app_name,
            ) || same_ignoring_ascii_case(apps[i]@, notification.desktop_entry));
        assert(notification.named_by(apps[i]@));
    }
}

/// A notification that was read is shown in whitelist mode exactly if its app is listed, and in any
/// other mode exactly if it is not; where it is not shown it is hidden. Either way it is the
/// notification that was read.
pub proof fn law_filter_decides(
    mode: Seq<char>,
    apps: Seq<String>,
    notification: NotificationView,
)
    ensures
        verdict(mode, apps, Some(notification)) == StepView::Show(notification) || verdict(
            mode,
            apps,
            Some(notification),
        ) == StepView::Hide(notification),
        verdict(mode, apps, Some(notification)) is Show <==> ((mode == "whitelist"@) == (exists|
            i: int,
        |
            0 <= i < apps.len() && (same_ignoring_ascii_case(
                #[trigger] apps[i]@,
                notification.app_name,
            ) || same_ignoring_ascii_case(apps[i]@, notification.desktop_entry)))),
        verdict(mode, apps, None) == StepView::Unreadable,
{
    law_listed(notification, apps);
}

/// What a notification says makes no difference to whether it is shown: of two from the same app
/// either both are or none is.
pub proof fn law_filter_ignores_texts(
    mode: Seq<char>,
    apps: Seq<String>,
    a: NotificationView,
    b: NotificationView,
)
    requires
        a.app_name == b.app_name,
        a.desktop_entry == b.desktop_entry,
    ensures
        verdict(mode, apps, Some(a)) is Show <==> verdict(mode, apps, Some(b)) is Show,
{
    law_filter_decides(mode, apps, a);
    law_filter_decides(mode, apps, b);
}

/// With an empty list every notification that can be read is shown, unless the mode is the
/// whitelist mode, in which none is.
pub proof fn law_empty_list_decides(mode: Seq<char>, notification: NotificationView)
    ensures
        mode != "whitelist"@ ==> verdict(mode, seq![], Some(notification)) == StepView::Show(
            notification,
        ),
        mode == "whitelist"@ ==> verdict(mode, seq![], Some(notification)) == StepView::Hide(
            notification,
        ),
{
    law_filter_decides(mode, seq![], notification);
}

/// A message calls `Notify` exactly if both its member and its interface are there and are those
/// of that call.
pub proof fn law_calls_notify(member: Seq<char>, interface: Seq<char>)
    ensures
        calls_notify(Some(member), Some(interface)) <==> member == "Notify"@ && interface
            == "org.freedesktop.Notifications"@,
        !calls_notify(None, Some(interface)),
        !calls_notify(Some(member), None),
        !calls_notify(None, None),
{
}

/// The notification that a call announces has the name, the headline and the text of the call, and
/// the desktop entry of the hint of that name, wherever that stands; without such a hint it has no
/// desktop entry.
pub proof fn law_announced(call: NotifyView, at: int)
    requires
        distinct_names(call.hints),
    ensures
        announced(call).app_name == call.app_name,
        announced(call).summary == call.summary,
        announced(call).body == call.body,
        0 <= at < call.hints.len() && call.hints[at].0 == "desktop-entry"@ ==> announced(
            call,
        ).desktop_entry == (match call.hints[at].1 {
            Some(text) => text,
            None => seq![],
        }),
        (forall|i: int| 0 <= i < call.hints.len() ==> (#[trigger] call.hints[i]).0
            != "desktop-entry"@) ==> announced(call).desktop_entry.len() == 0,
{
    if 0 <= at < call.hints.len() && call.hints[at].0 == "desktop-entry"@ {
        law_hint_found_anywhere(call.hints, "desktop-entry"@, at);
    }
    if forall|i: int| 0 <= i < call.hints.len() ==> (#[trigger] call.hints[i]).0
        != "desktop-entry"@ {
        law_hint_missing(call.hints, "desktop-entry"@);
    }
}

/// A message body carries a notification exactly if its arguments can be read, and then the one
/// that these arguments announce.
pub proof fn law_notification_read(
    signature: Seq<char>,
    bytes: Seq<u8>,
    endian: u8,
    descriptors: nat,
)
    ensures
        notification_in(signature, bytes, endian, descriptors) is Some <==> notify_arguments(
            signature,
            bytes,
            endian,
            descriptors,
        ) is Some,
        notify_arguments(signature, bytes, endian, descriptors) matches Some(
            (app_name, summary, body, hints),
        ) ==> {
            let notification = notification_in(signature, bytes, endian, descriptors)->0;
            &&& notification.app_name == app_name
            &&& notification.summary == summary
            &&& notification.body == body
            &&& notification.desktop_entry == hint_text(hints, "desktop-entry"@)
        },
{
}

/// Where several hints share a name, the first of them decides, whatever its value is.
pub proof fn law_first_hint_decides(
    hints: Seq<(Seq<char>, Option<Seq<char>>)>,
    name: Seq<char>,
    at: int,
)
    requires
        0 <= at < hints.len(),
        hints[at].0 == name,
        forall|i: int| 0 <= i < at ==> (#[trigger] hints[i]).0 != name,
    ensures
        hint_text(hints, name) == (match hints[at].1 {
            Some(text) => text,
            None => seq![],
        }),
    decreases hints.len(),
{
    if at > 0 {
        assert(hints[0].0 != name);
        let rest = hints.skip(1);
        assert forall|i: int| 0 <= i < at - 1 implies (#[trigger] rest[i]).0 != name by {
            assert(hints[i + 1].0 != name);
        }
        law_first_hint_decides(rest, name, at - 1);
    }
}

} // verus!
