//! What the keys do.

use vstd::prelude::*;

verus! {

/// What a key asks for.
#[derive(Debug, Clone, Copy, PartialEq, Eq, Structural)]
pub enum Action {
    CycleForecast,
    CellNext,
    CellPrev,
    SelectProduct(usize),
    ToggleProductOverlay(usize),
    PanWest,
    PanSouth,
    PanNorth,
    PanEast,
    PanHalfDown,
    PanHalfUp,
    ZoomIn,
    ZoomOut,
    RecentreHome,
    FrameBack,
    FrameForward,
    JumpOldest,
    JumpNewest,
    TogglePlay,
    Faster,
    Slower,
    ToggleHelp,
    Quit,
    Ignored,
}

/// Which key it is.
#[derive(Debug, Clone, Copy, PartialEq, Eq, Structural)]
pub enum KeyCode {
    Char(char),
    Esc,
    Other,
}

/// A key press.
#[derive(Debug, Clone, Copy, PartialEq, Eq, Structural)]
pub struct Key {
    pub code: KeyCode,
    pub control: bool,
}

/// What the second key of a sequence asks for.
pub open spec fn sequence_action(prefix: char, code: KeyCode) -> Action {
    match code {
        KeyCode::Char(c) => if prefix == 'g' && c == 'g' {
            Action::JumpOldest
        } else if prefix == 'g' && c == 'h' {
            Action::RecentreHome
        } else if prefix == 'z' && c == 'i' {
            Action::ZoomIn
        } else if prefix == 'z' && c == 'o' {
            Action::ZoomOut
        } else if prefix == 'Z' && c == 'Z' {
            Action::Quit
        } else {
            Action::Ignored
        },
        _ => Action::Ignored,
    }
}

/// What a key asks for together with the control key.
pub open spec fn control_action(code: KeyCode) -> Action {
    match code {
        KeyCode::Char(c) => if c == 'd' {
            Action::PanHalfDown
        } else if c == 'u' {
            Action::PanHalfUp
        } else if c == 'c' {
            Action::Quit
        } else {
            Action::Ignored
        },
        _ => Action::Ignored,
    }
}

/// Whether a key opens a sequence.
pub open spec fn opens_sequence(c: char) -> bool {
    c == 'g' || c == 'z' || c == 'Z'
}

/// What a key asks for on its own.
pub open spec fn single_action(code: KeyCode) -> Action {
    match code {
        KeyCode::Char(c) => if c == 'h' {
            Action::PanWest
        } else if c == 'j' {
            Action::PanSouth
        } else if c == 'k' {
            Action::PanNorth
        } else if c == 'l' {
            Action::PanEast
        } else if c == '[' {
            Action::FrameBack
        } else if c == ']' {
            Action::FrameForward
        } else if c == 'G' {
            Action::JumpNewest
        } else if c == ' ' {
            Action::TogglePlay
        } else if c == '>' {
            Action::Faster
        } else if c == '<' {
            Action::Slower
        } else if c == 'f' {
            Action::CycleForecast
        } else if c == 'n' {
            Action::CellNext
        } else if c == 'N' {
            Action::CellPrev
        } else if '1' <= c <= '3' {
            Action::SelectProduct((c as u32 - '1' as u32) as usize)
        } else if '4' <= c <= '7' {
            Action::ToggleProductOverlay((c as u32 - '4' as u32) as usize)
        } else if c == '?' {
            Action::ToggleHelp
        } else if c == 'q' {
            Action::Quit
        } else {
            Action::Ignored
        },
        KeyCode::Esc => Action::Quit,
        KeyCode::Other => Action::Ignored,
    }
}

/// What a key asks for, given the key that opened a sequence, where one did.
pub open spec fn action_of(pending: Option<char>, key: Key) -> Action {
    match pending {
        Some(prefix) => sequence_action(prefix, key.code),
        None => if key.control {
            control_action(key.code)
        } else {
            single_action(key.code)
        },
    }
}

/// The key that stands open afterwards.
pub open spec fn pending_after(pending: Option<char>, key: Key) -> Option<char> {
    match (pending, key.code) {
        (None, KeyCode::Char(c)) => if !key.control && opens_sequence(c) {
            Some(c)
        } else {
            None
        },
        _ => None,
    }
}

/// Resolves a key press. `g`, `z` and `Z` open a sequence; every other key resolves at once,
/// so that nothing waits for a timeout.
pub fn resolve_key(pending: &mut Option<char>, key: Key) -> (r: Action)
    ensures
        r == action_of(*old(pending), key),
        *final(pending) == pending_after(*old(pending), key),
        *old(pending) is None && !key.control ==> {
            &&& key.code == KeyCode::Char('h') ==> r is PanWest
            &&& key.code == KeyCode::Char('j') ==> r is PanSouth
            &&& key.code == KeyCode::Char('k') ==> r is PanNorth
            &&& key.code == KeyCode::Char('l') ==> r is PanEast
            &&& key.code == KeyCode::Char('[') ==> r is FrameBack
            &&& key.code == KeyCode::Char(']') ==> r is FrameForward
            &&& key.code == KeyCode::Char('G') ==> r is JumpNewest
            &&& key.code == KeyCode::Char(' ') ==> r is TogglePlay
            &&& key.code == KeyCode::Char('>') ==> r is Faster
            &&& key.code == KeyCode::Char('<') ==> r is Slower
            &&& key.code == KeyCode::Char('f') ==> r is CycleForecast
            &&& key.code == KeyCode::Char('n') ==> r is CellNext
            &&& key.code == KeyCode::Char('N') ==> r is CellPrev
            &&& key.code == KeyCode::Char('1') ==> r == Action::SelectProduct(0)
            &&& key.code == KeyCode::Char('2') ==> r == Action::SelectProduct(1)
            &&& key.code == KeyCode::Char('3') ==> r == Action::SelectProduct(2)
            &&& key.code == KeyCode::Char('4') ==> r == Action::ToggleProductOverlay(0)
            &&& key.code == KeyCode::Char('5') ==> r == Action::ToggleProductOverlay(1)
            &&& key.code == KeyCode::Char('6') ==> r == Action::ToggleProductOverlay(2)
            &&& key.code == KeyCode::Char('7') ==> r == Action::ToggleProductOverlay(3)
            &&& key.code == KeyCode::Char('?') ==> r is ToggleHelp
            &&& key.code == KeyCode::Char('q') ==> r is Quit
            &&& key.code is Esc ==> r is Quit
            &&& key.code is Other ==> r is Ignored
        },
        *old(pending) is None && key.control ==> {
            &&& r is PanHalfDown <==> key.code == KeyCode::Char('d')
            &&& r is PanHalfUp <==> key.code == KeyCode::Char('u')
            &&& r is Quit <==> key.code == KeyCode::Char('c')
        },
        *old(pending) == Some('g') ==> {
            &&& r is JumpOldest <==> key.code == KeyCode::Char('g')
            &&& r is RecentreHome <==> key.code == KeyCode::Char('h')
        },
        *old(pending) == Some('z') ==> {
            &&& r is ZoomIn <==> key.code == KeyCode::Char('i')
            &&& r is ZoomOut <==> key.code == KeyCode::Char('o')
        },
        *old(pending) == Some('Z') ==> (r is Quit <==> key.code == KeyCode::Char('Z')),
        *final(pending) is Some <==> *old(pending) is None && !key.control && (key.code
            == KeyCode::Char('g') || key.code == KeyCode::Char('z') || key.code
            == KeyCode::Char('Z')),
{
    let opened: Option<char> = *pending;
    *pending = None;
    if let Some(prefix) = opened {
        return match key.code {
            KeyCode::Char(c) => if prefix == 'g' && c == 'g' {
                Action::JumpOldest
            } else if prefix == 'g' && c == 'h' {
                Action::RecentreHome
            } else if prefix == 'z' && c == 'i' {
                Action::ZoomIn
            } else if prefix == 'z' && c == 'o' {
                Action::ZoomOut
            } else if prefix == 'Z' && c == 'Z' {
                Action::Quit
            } else {
                Action::Ignored
            },
            _ => Action::Ignored,
        };
    }
    if key.control {
        return match key.code {
            KeyCode::Char('d') => Action::PanHalfDown,
            KeyCode::Char('u') => Action::PanHalfUp,
            KeyCode::Char('c') => Action::Quit,
            _ => Action::Ignored,
        };
    }
    match key.code {
        KeyCode::Char('h') => Action::PanWest,
        KeyCode::Char('j') => Action::PanSouth,
        KeyCode::Char('k') => Action::PanNorth,
        KeyCode::Char('l') => Action::PanEast,
        KeyCode::Char('[') => Action::FrameBack,
        KeyCode::Char(']') => Action::FrameForward,
        KeyCode::Char('G') => Action::JumpNewest,
        KeyCode::Char(' ') => Action::TogglePlay,
        KeyCode::Char('>') => Action::Faster,
        KeyCode::Char('<') => Action::Slower,
        KeyCode::Char('f') => Action::CycleForecast,
        KeyCode::Char('n') => Action::CellNext,
        KeyCode::Char('N') => Action::CellPrev,
        KeyCode::Char('?') => Action::ToggleHelp,
        KeyCode::Char('q') => Action::Quit,
        KeyCode::Esc => Action::Quit,
        KeyCode::Char(c) => {
            if c >= '1' && c <= '3' {
                Action::SelectProduct((c as u32 - '1' as u32) as usize)
            } else if c >= '4' && c <= '7' {
                Action::ToggleProductOverlay((c as u32 - '4' as u32) as usize)
            } else {
                if c == 'g' || c == 'z' || c == 'Z' {
                    *pending = Some(c);
                }
                Action::Ignored
            }
        },
        KeyCode::Other => Action::Ignored,
    }
}

/// A sequence is over with its second key, whatever that is: the next key stands on its own.
pub proof fn law_sequence_ends_with_its_second_key(prefix: char, second: Key, third: Key)
    ensures
        pending_after(Some(prefix), second) is None,
        action_of(pending_after(Some(prefix), second), third) == action_of(None, third),
{
}

/// A key that opens a sequence does nothing by itself.
pub proof fn law_prefix_does_nothing_alone(c: char)
    requires
        opens_sequence(c),
    ensures
        action_of(None, Key { code: KeyCode::Char(c), control: false }) is Ignored,
        pending_after(None, Key { code: KeyCode::Char(c), control: false }) == Some(c),
{
}

/// Keys that do something do different things: no two characters ask for the same, on their own.
pub proof fn law_keys_do_different_things(a: char, b: char)
    requires
        single_action(KeyCode::Char(a)) == single_action(KeyCode::Char(b)),
    ensures
        a == b || single_action(KeyCode::Char(a)) is Ignored,
{
}

} // verus!
