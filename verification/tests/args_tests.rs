//! Option handling and command selection.

use wrm::parse_arguments::{parse_arguments, Command, Options};
use wrm::Error;

#[test]
fn options_carry_their_flags() {
    let o = Options::new(true, false);
    assert!(o.noninteractive());
    assert!(!o.quiet());
    let o = Options::new(false, true);
    assert!(!o.noninteractive());
    assert!(o.quiet());
}

#[test]
fn cleaning_wins_over_everything() {
    assert_eq!(parse_arguments(true, true, true, true, true).unwrap(), Command::Clean);
    assert_eq!(parse_arguments(false, true, false, false, false).unwrap(), Command::Clean);
}

#[test]
fn listing_wins_over_path_verbs() {
    assert_eq!(parse_arguments(true, false, true, true, true).unwrap(), Command::List);
    assert_eq!(parse_arguments(false, false, false, true, false).unwrap(), Command::List);
}

#[test]
fn path_verbs_in_precedence_order() {
    assert_eq!(parse_arguments(true, false, true, false, true).unwrap(), Command::Delete);
    assert_eq!(parse_arguments(true, false, false, false, true).unwrap(), Command::Restore);
    assert_eq!(parse_arguments(true, false, false, false, false).unwrap(), Command::Remove);
}

#[test]
fn nothing_to_do_is_an_argument_error() {
    let r = parse_arguments(false, false, false, false, false);
    assert!(matches!(r, Err(Error::IncorrectArguments)));
    let r = parse_arguments(false, false, true, false, true);
    assert!(matches!(r, Err(Error::IncorrectArguments)));
}
