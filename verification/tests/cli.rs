use weatui::cli::{parse_mode, Mode};

#[test]
fn a11_short_and_long_daemon_flags_both_select_daemon_mode() {
    assert_eq!(parse_mode(&["-d"]), Mode::Daemon);
    assert_eq!(parse_mode(&["--daemon"]), Mode::Daemon);
}

#[test]
fn no_arguments_is_interactive() {
    let empty: [&str; 0] = [];
    assert_eq!(parse_mode(&empty), Mode::Interactive);
}

#[test]
fn help_wins_over_daemon() {
    assert_eq!(parse_mode(&["-d", "--help"]), Mode::Help);
}

#[test]
fn unknown_arguments_do_not_change_the_mode() {
    assert_eq!(parse_mode(&["--nonsense"]), Mode::Interactive);
}
