use weatui::tui::keys::{resolve_key, Action, Key, KeyCode};

fn key(c: char) -> Key {
    Key { code: KeyCode::Char(c), control: false }
}

fn ctrl(c: char) -> Key {
    Key { code: KeyCode::Char(c), control: true }
}

fn press(seq: &[Key]) -> Action {
    let mut pending = None;
    let mut last = Action::Ignored;
    for k in seq {
        last = resolve_key(&mut pending, *k);
    }
    last
}

#[test]
fn a13_hjkl_pan_the_map() {
    assert_eq!(press(&[key('h')]), Action::PanWest);
    assert_eq!(press(&[key('j')]), Action::PanSouth);
    assert_eq!(press(&[key('k')]), Action::PanNorth);
    assert_eq!(press(&[key('l')]), Action::PanEast);
}

#[test]
fn a13_brackets_step_frames_and_do_not_pan() {
    assert_eq!(press(&[key('[')]), Action::FrameBack);
    assert_eq!(press(&[key(']')]), Action::FrameForward);
}

#[test]
fn a13_gg_jumps_oldest_and_capital_g_jumps_newest() {
    assert_eq!(press(&[key('g'), key('g')]), Action::JumpOldest);
    assert_eq!(press(&[key('G')]), Action::JumpNewest);
}

#[test]
fn a13_space_toggles_playback() {
    assert_eq!(press(&[key(' ')]), Action::TogglePlay);
}

#[test]
fn gh_recentres_on_home_without_colliding_with_the_pan_binding() {
    assert_eq!(press(&[key('g'), key('h')]), Action::RecentreHome);
}

#[test]
fn zi_and_zo_zoom() {
    assert_eq!(press(&[key('z'), key('i')]), Action::ZoomIn);
    assert_eq!(press(&[key('z'), key('o')]), Action::ZoomOut);
}

#[test]
fn a_lone_prefix_key_produces_no_action_and_stays_pending() {
    let mut pending = None;
    assert_eq!(resolve_key(&mut pending, key('g')), Action::Ignored);
    assert_eq!(pending, Some('g'));
}

#[test]
fn an_unfinished_sequence_is_abandoned_rather_than_firing_the_single_key_action() {
    let mut pending = None;
    resolve_key(&mut pending, key('g'));
    assert_eq!(resolve_key(&mut pending, key('l')), Action::Ignored);
    assert_eq!(pending, None, "pending must clear so the next key works");
    assert_eq!(resolve_key(&mut pending, key('l')), Action::PanEast);
}

#[test]
fn quit_bindings_all_work() {
    assert_eq!(press(&[key('q')]), Action::Quit);
    assert_eq!(press(&[key('Z'), key('Z')]), Action::Quit);
    assert_eq!(press(&[ctrl('c')]), Action::Quit);
}

#[test]
fn control_pans_half_a_screen() {
    assert_eq!(press(&[ctrl('d')]), Action::PanHalfDown);
    assert_eq!(press(&[ctrl('u')]), Action::PanHalfUp);
}

#[test]
fn speed_and_help_bindings_resolve() {
    assert_eq!(press(&[key('>')]), Action::Faster);
    assert_eq!(press(&[key('<')]), Action::Slower);
    assert_eq!(press(&[key('?')]), Action::ToggleHelp);
}

#[test]
fn unbound_keys_are_ignored_rather_than_mapped_to_something_surprising() {
    assert_eq!(press(&[key('x')]), Action::Ignored);
    assert_eq!(press(&[key('~')]), Action::Ignored);
}

#[test]
fn digits_one_to_three_select_the_base_product() {
    assert_eq!(press(&[key('1')]), Action::SelectProduct(0));
    assert_eq!(press(&[key('2')]), Action::SelectProduct(1));
    assert_eq!(press(&[key('3')]), Action::SelectProduct(2));
}

#[test]
fn digits_four_to_seven_toggle_augmentations() {
    assert_eq!(press(&[key('4')]), Action::ToggleProductOverlay(0));
    assert_eq!(press(&[key('5')]), Action::ToggleProductOverlay(1));
    assert_eq!(press(&[key('7')]), Action::ToggleProductOverlay(3));
}

#[test]
fn digits_and_shifted_digits_beyond_the_layer_set_are_unbound() {
    assert_eq!(press(&[key('8')]), Action::Ignored);
    assert_eq!(press(&[key('9')]), Action::Ignored);
    assert_eq!(press(&[key('!')]), Action::Ignored);
    assert_eq!(press(&[key('(')]), Action::Ignored);
}

#[test]
fn cell_keys_resolve() {
    assert_eq!(press(&[key('n')]), Action::CellNext);
    assert_eq!(press(&[key('N')]), Action::CellPrev);
}

#[test]
fn f_cycles_the_forecast_horizon() {
    assert_eq!(press(&[key('f')]), Action::CycleForecast);
}

#[test]
fn escape_abandons_a_sequence() {
    let mut pending = Some('g');
    let escape = Key { code: KeyCode::Esc, control: false };
    assert_eq!(resolve_key(&mut pending, escape), Action::Ignored);
    assert_eq!(pending, None);
}

#[test]
fn every_sequence_ends_with_its_second_key() {
    for first in ['g', 'z', 'Z'] {
        for second in ('!'..='~').map(key) {
            let mut pending = None;
            assert_eq!(resolve_key(&mut pending, key(first)), Action::Ignored);
            resolve_key(&mut pending, second);
            assert_eq!(pending, None, "{first} {second:?}");
        }
    }
}
