//! Settings of the daemon and the texts that follow from them.

use vstd::prelude::*;
use vstd::string::*;

use crate::clock::{zone_known, Zone};
use crate::text::{begins_with, chars_of, decimal, holds_at, law_begins_with, push_decimal};

verus! {

/// All settings.
#[derive(Debug)]
pub struct Config {
    /// Where the panel is.
    pub display: DisplayConfig,
    /// Which calendar to show.
    pub calendar: CalendarConfig,
    /// What to do with notifications.
    pub notifications: NotificationConfig,
}

/// Where the panel is.
#[derive(Debug)]
pub struct DisplayConfig {
    /// Host name or address.
    pub host: String,
    /// TCP port.
    pub port: u16,
}

/// Which calendar to show.
#[derive(Debug)]
pub struct CalendarConfig {
    /// The identifier of the calendar.
    pub uid: String,
    /// The zone in which times are shown.
    pub timezone: String,
}

/// What to do with notifications.
#[derive(Debug)]
pub struct NotificationConfig {
    /// Path of the file that every received notification is logged to.
    pub log_path: String,
    /// Filter mode: `"blacklist"` or `"whitelist"`.
    pub filter_mode: String,
    /// Apps to exclude (blacklist mode) or include (whitelist mode).
    /// Matched against both the app name and the desktop entry.
    pub filter_apps: Vec<String>,
}

impl Default for NotificationConfig {
    fn default() -> (r: Self)
        ensures
            r.log_path@ == "~/.local/share/eink-daemon/notifications.log"@,
            r.filter_mode@ == "blacklist"@,
            r.filter_apps@ == Seq::<String>::empty(),
    {
        NotificationConfig {
            log_path: default_log_path(),
            filter_mode: default_filter_mode(),
            filter_apps: Vec::new(),
        }
    }
}

/// The log file that is used where none is configured.
pub fn default_log_path() -> (r: String)
    ensures
        r@ == "~/.local/share/eink-daemon/notifications.log"@,
{
    "~/.local/share/eink-daemon/notifications.log".to_owned()
}

/// The filter mode that is used where none is configured.
pub fn default_filter_mode() -> (r: String)
    ensures
        r@ == "blacklist"@,
{
    "blacklist".to_owned()
}

/// A path appended to a directory: an absolute path stands for itself, and a slash is put between
/// the two unless the directory is empty or ends with one.
pub open spec fn joined(base: Seq<char>, path: Seq<char>) -> Seq<char> {
    if path.len() > 0 && path[0] == '/' {
        path
    } else if base.len() == 0 || base.last() == '/' {
        base + path
    } else {
        base + seq!['/'] + path
    }
}

/// A path with a leading `~/` replaced by the home directory, where that is known.
pub open spec fn expanded(path: Seq<char>, home: Option<Seq<char>>) -> Seq<char> {
    match home {
        Some(home) => if begins_with(path, "~/"@) {
            joined(home, path.skip(2))
        } else {
            path
        },
        None => path,
    }
}

/// Replaces a leading `~/` by the home directory, where that is known.
pub fn expand_tilde(path: &str, home: Option<&str>) -> (r: String)
    ensures
        r@ == expanded(
            path@,
            match home {
                Some(home) => Some(home@),
                None => None,
            },
        ),
{
    let chars: Vec<char> = chars_of(path);
    let tilde: Vec<char> = chars_of("~/");
    if let Some(home) = home {
        if holds_at(chars.as_slice(), tilde.as_slice(), 0) {
            proof {
                reveal_strlit("~/");
            }
            let size: usize = chars.len();
            let rest = path.substring_char(2, size);
            assert(rest@ == path@.skip(2));
            if size > 2 && chars[2] == '/' {
                return rest.to_owned();
            }
            let mut out = home.to_owned();
            let base: Vec<char> = chars_of(home);
            if base.len() > 0 && base[base.len() - 1] != '/' {
                out.push('/');
                assert(home@.push('/') == home@ + seq!['/']);
            }
            out.append(rest);
            return out;
        }
    }
    path.to_owned()
}

/// The path of the settings file in a home directory.
pub fn config_path(home: &str) -> (r: String)
    ensures
        r@ == home@ + "/.config/eink-daemon/config.toml"@,
{
    let mut out = home.to_owned();
    out.append("/.config/eink-daemon/config.toml");
    out
}

impl DisplayConfig {
    /// The address that the panel takes its content at.
    pub fn url(&self) -> (r: String)
        ensures
            r@ == "http://"@ + self.host@ + ":"@ + decimal(self.port as nat) + "/"@,
    {
        let mut out = "http://".to_owned();
        out.append(self.host.as_str());
        out.append(":");
        push_decimal(&mut out, self.port as u64);
        out.append("/");
        out
    }
}

impl CalendarConfig {
    /// The zone in which times are shown, or what to tell the user where it is unknown.
    pub fn local_zone(&self) -> (r: Result<Zone, String>)
        ensures
            match r {
                Ok(zone) => zone_known(self.timezone@) && zone@ == self.timezone@,
                Err(message) => !zone_known(self.timezone@) && message@ == "Invalid timezone: "@
                    + self.timezone@,
            },
    {
        match Zone::parse(self.timezone.as_str()) {
            Some(zone) => Ok(zone),
            None => {
                let mut message = "Invalid timezone: ".to_owned();
                message.append(self.timezone.as_str());
                Err(message)
            },
        }
    }
}

/// A path in the home directory is what follows `~/`, put after the home directory with just one
/// slash between them. What follows may itself be absolute; then it is the path. Any other path,
/// and any path where the home directory is unknown, stays as it is.
pub proof fn law_expanded(home: Seq<char>, rest: Seq<char>, path: Seq<char>)
    ensures
        expanded(path, None) == path,
        (path.len() < 2 || path[0] != '~' || path[1] != '/') ==> expanded(path, Some(home)) == path,
        rest.len() > 0 && rest[0] == '/' ==> expanded("~/"@ + rest, Some(home)) == rest,
        rest.len() == 0 || rest[0] != '/' ==> expanded("~/"@ + rest, Some(home.push('/'))) == home
            + seq!['/'] + rest,
        (rest.len() == 0 || rest[0] != '/') && home.len() > 0 && home.last() != '/' ==> expanded(
            "~/"@ + rest,
            Some(home),
        ) == home + seq!['/'] + rest,
        rest.len() == 0 || rest[0] != '/' ==> expanded("~/"@ + rest, Some(seq![])) == rest,
{
    reveal_strlit("~/");
    law_begins_with("~/"@, rest, path);
    let whole = "~/"@ + rest;
    assert(whole.skip(2) == rest);
    assert(home.push('/') + rest == home + seq!['/'] + rest);
    assert(Seq::<char>::empty() + rest == rest);
}

} // verus!
