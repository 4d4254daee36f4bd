//! The glyphs that are drawn, all of them within what the terminal's font covers.

use vstd::prelude::*;

verus! {

pub const TORNADO: char = '\u{e36c}';

pub const THUNDERSTORM: char = '\u{e31d}';

pub const FLOOD: char = '\u{e375}';

pub const STRONG_WIND: char = '\u{e34b}';

pub const STORM_WARNING: char = '\u{e3c6}';

pub const NO_DATA: char = '\u{e374}';

pub const REFRESH: char = '\u{e348}';

pub const THERMOMETER: char = '\u{e350}';

pub const HUMIDITY: char = '\u{e373}';

pub const RAINDROP: char = '\u{e371}';

pub const EYE: char = '\u{f06e}';

pub const HOME: char = '\u{f041}';

pub const PLAY: char = '\u{f04b}';

pub const PAUSE: char = '\u{f04c}';

pub const CLOCK: char = '\u{f017}';

} // verus!
