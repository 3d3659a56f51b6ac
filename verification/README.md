# eink_daemon

A daemon that keeps a small e-ink panel up to date. Every minute it asks the desktop's calendar
service for the objects of the next twenty-four hours, works out the next event, and sends it to
the panel together with the headline of the latest desktop notification.

- `src/` is the library: reading events and notifications, choosing what to show, and the texts
  that go to the panel, the log and the calendar service. It is verified with Verus.
- `app/` is the program around it: D-Bus, the settings file, the log file and HTTP.
- `tests/` exercises the library with `chrono`, `chrono_tz`, `serde_json` and `zbus` linked in.

Calendar and time-zone knowledge, JSON writing and D-Bus decoding come from those crates, through
functions marked `external_body` whose doc comments say what is taken on trust.
