# MinDash

A dashboard for the machines of a homelab: live statistics, power control, a
confined file browser, containers, and a grid of widgets that are configured in
the browser.

- `src/` is the library, written and proved in Verus: the configuration and the
  widget registry, passwords and sessions, path confinement, shell quoting, the
  parsers of what commands and feeds print, what every request is answered, and
  what the panels of the dashboard show.
- `app/` is the program around it: the HTTP server, the commands it runs, the
  files it reads, and the dashboard's markup. What is computed in floating point
  stands in `app/figures.rs`.
- `tests/` runs the library.

The contracts speak of plain models: a text is a `Seq<char>`, a JSON document a
`JsonView`, a reply a `ReplyView`. Where an outside crate does the work, such as
hashing, encoding or reading XML, a small wrapper says what is believed of it;
everything else is proved. Running out of memory is not considered.
