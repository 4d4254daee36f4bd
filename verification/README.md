# weatui

Severe weather alerts and radar in a terminal. The alert pipeline, the storm cell
detector and tracker, the timeline and everything that is written or drawn on the screen
are a library in Verus: each function says in its contract what it returns or changes,
and Verus proves it. The program around it fetches, samples and paints.

## Layout

`src/` is the library.

| Module | What it holds |
|---|---|
| `alert` | the feed's entries, P-VTEC codes, the allowlist, the board of alerts in force, polling and backing off, storm motion |
| `daemon` | one poll after another: what to announce, when silence itself is announced |
| `notify` | the text of notifications, the command line of the desktop daemon, the scripts of the tiers |
| `conditions` | surface observations, their units, the rounds in which they are gathered |
| `config`, `cli`, `geo`, `counties` | settings and their faults, the command line, places and radar sites, county borders |
| `radar` | products, frames in a loop, volumes and their columns, storm cells, their tracks, forecast files |
| `render` | palettes, lines and outlines in pixels, labels, the panel, the timeline |
| `tui` | keys, forecast horizons, what is painted over the map, the state of the application |
| `text`, `time`, `ieee`, `order`, `table`, `lattice` | what the others are built from |

`app/` is the program: HTTP requests, files, processes, the terminal, JSON and TOML, and
all arithmetic on real numbers. `tests/` runs the library on concrete values.

## Numbers

The library does no floating-point arithmetic. Readings, coordinates and distances come
to it as IEEE-754 bit patterns, which it orders, compares with thresholds and hands on;
`ieee` states what those comparisons mean. Where a colour lies between two stops of a
palette, the library names the two stops and the program mixes them.

## What is taken on trust

Contracts that are believed rather than proved are marked `external_body` or
`assume_specification`, each with a comment that names the function behind it: RFC 3339
timestamps, calendar dates and clocks of time zones come from `chrono` and `chrono-tz`,
the time in the name of an archived radar volume from `nexrad`, lower case from `str`, and
the time from the system clock.

## Promises

Proof functions whose names begin with `law_` state what holds of the library as a whole.
Among them: nothing stands on the board unannounced, and a poll that repeats the last one
announces nothing (`alert::state`); silence is never taken for safety (`daemon`); a test
product raises no alarm and an unreadable warning is kept (`alert::filter`); a new frame
does not move the view (`radar::ring`); no track goes on as two cells (`radar::track`); a
line is drawn without gaps from end to end (`render::overlay`).
