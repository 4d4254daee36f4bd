//! What the command line asks for.

use vstd::prelude::*;
#[allow(unused_imports)]
use crate::config::Config;
use crate::geo::Coords;
#[allow(unused_imports)]
use crate::text::{opt_text, same, words};

verus! {

/// How the program runs.
#[derive(Debug, Clone, Copy, PartialEq, Eq, Structural)]
pub enum Mode {
    Interactive,
    Daemon,
    Help,
}

/// The mode that arguments ask for: help wins over the daemon, and what is unknown changes
/// nothing.
pub open spec fn mode_of(args: Seq<Seq<char>>) -> Mode {
    if args.contains("-h"@) || args.contains("--help"@) {
        Mode::Help
    } else if args.contains("-d"@) || args.contains("--daemon"@) {
        Mode::Daemon
    } else {
        Mode::Interactive
    }
}

fn given(args: &[&str], want: &str) -> (r: bool)
    ensures
        r == words(args@).contains(want@),
{
    let mut i: usize = 0;
    while i < args.len()
        invariant
            i <= args@.len(),
            forall|k: int| 0 <= k < i ==> (#[trigger] args@[k])@ != want@,
        decreases args@.len() - i,
    {
        if same(args[i], want) {
            assert(words(args@)[i as int] == want@);
            return true;
        }
        i += 1;
    }
    assert(!words(args@).contains(want@)) by {
        if words(args@).contains(want@) {
            let k = words(args@).index_of(want@);
            assert(words(args@)[k] == args@[k]@);
        }
    }
    false
}

pub fn parse_mode(args: &[&str]) -> (r: Mode)
    ensures
        r == mode_of(words(args@)),
        r is Help <==> words(args@).contains("-h"@) || words(args@).contains("--help"@),
        r is Daemon <==> !(r is Help) && (words(args@).contains("-d"@) || words(args@).contains(
            "--daemon"@,
        )),
{
    if given(args, "-h") || given(args, "--help") {
        Mode::Help
    } else if given(args, "-d") || given(args, "--daemon") {
        Mode::Daemon
    } else {
        Mode::Interactive
    }
}

/// Where the watched place comes from.
#[derive(Debug, Clone)]
pub enum Home {
    At(Coords),
    Zip(String),
}

/// The watched place: explicit coordinates win over a ZIP code.
pub fn resolve_home(cfg: &Config) -> (r: Home)
    requires
        cfg.fault() is None,
    ensures
        match cfg.location.coords() {
            Some(c) => r == Home::At(Coords { lat: c.0, lon: c.1 }),
            None => r matches Home::Zip(z) && opt_text(cfg.location.zip) == Some(z@),
        },
        cfg.location.lat is Some && cfg.location.lon is Some ==> r == Home::At(
            (Coords { lat: cfg.location.lat->0, lon: cfg.location.lon->0 }),
        ),
        cfg.location.lat is None || cfg.location.lon is None ==> r is Zip,
{
    if let Some((lat, lon)) = cfg.location.explicit_coords() {
        return Home::At(Coords { lat, lon });
    }
    match &cfg.location.zip {
        Some(z) => Home::Zip(z.clone()),
        None => Home::Zip(String::new()),
    }
}

} // verus!
