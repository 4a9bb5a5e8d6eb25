use dsp::listen::{
    check_config_choice, check_device_choice, check_host_choice, read_index, selection_for, Choice,
    ParseErrorKind, Selection,
};

#[test]
fn no_item_available_cannot_go_on() {
    assert_eq!(selection_for(0), Selection::NoneAvailable);
}

#[test]
fn single_item_is_taken() {
    assert_eq!(selection_for(1), Selection::Only);
}

#[test]
fn several_items_ask_the_user() {
    assert_eq!(selection_for(2), Selection::AskUser);
    assert_eq!(selection_for(17), Selection::AskUser);
}

#[test]
fn read_index_drops_the_newline() {
    assert_eq!(read_index("42\n").unwrap(), 42);
    assert_eq!(read_index("0\n").unwrap(), 0);
}

#[test]
fn read_index_drops_the_last_character_whatever_it_is() {
    assert_eq!(read_index("12").unwrap(), 1);
}

#[test]
fn read_index_accepts_a_leading_plus() {
    assert_eq!(read_index("+7\n").unwrap(), 7);
}

#[test]
fn read_index_refuses_what_is_not_a_number() {
    assert!(read_index("\n").is_err());
    assert!(read_index("+\n").is_err());
    assert!(read_index("-1\n").is_err());
    assert!(read_index(" 1\n").is_err());
    assert!(read_index("1 \n").is_err());
    assert!(read_index("x1\n").is_err());
    assert!(read_index("1_0\n").is_err());
}

#[test]
fn read_index_refuses_a_value_beyond_usize() {
    let too_big = format!("{}0\n", usize::MAX);
    assert!(read_index(&too_big).is_err());
    let max = format!("{}\n", usize::MAX);
    assert_eq!(read_index(&max).unwrap(), usize::MAX);
}

#[test]
fn host_choice_accepts_indices_below_the_count() {
    assert!(matches!(check_host_choice("0\n", 3), Choice::Chosen(0)));
    assert!(matches!(check_host_choice("2\n", 3), Choice::Chosen(2)));
}

#[test]
fn host_choice_refuses_the_count_itself() {
    assert!(matches!(check_host_choice("3\n", 3), Choice::OutOfRange));
    assert!(matches!(check_host_choice("9\n", 3), Choice::OutOfRange));
}

#[test]
fn host_choice_reports_unparsable_input() {
    assert!(matches!(check_host_choice("two\n", 3), Choice::Unparsable(_)));
    assert!(matches!(check_host_choice("\n", 3), Choice::Unparsable(_)));
}

#[test]
fn device_choice_accepts_the_count_itself() {
    assert!(matches!(check_device_choice("3\n", 3), Choice::Chosen(3)));
    assert!(matches!(check_device_choice("1\n", 3), Choice::Chosen(1)));
    assert!(matches!(check_device_choice("4\n", 3), Choice::OutOfRange));
    assert!(matches!(check_device_choice("?\n", 3), Choice::Unparsable(_)));
}

#[test]
fn config_choice_accepts_the_count_itself() {
    assert!(matches!(check_config_choice("2\n", 2), Choice::Chosen(2)));
    assert!(matches!(check_config_choice("0\n", 2), Choice::Chosen(0)));
    assert!(matches!(check_config_choice("3\n", 2), Choice::OutOfRange));
    assert!(matches!(check_config_choice("-\n", 2), Choice::Unparsable(_)));
}

#[test]
fn read_index_reports_empty_input() {
    assert_eq!(read_index("\n"), Err(ParseErrorKind::Empty));
}

#[test]
fn read_index_reports_invalid_digits() {
    assert_eq!(read_index("+\n"), Err(ParseErrorKind::InvalidDigit));
    assert_eq!(read_index("-1\n"), Err(ParseErrorKind::InvalidDigit));
    assert_eq!(read_index("x1\n"), Err(ParseErrorKind::InvalidDigit));
    assert_eq!(read_index("12a\n"), Err(ParseErrorKind::InvalidDigit));
    assert_eq!(read_index("\u{663}\n"), Err(ParseErrorKind::InvalidDigit));
}

#[test]
fn read_index_reports_overflow() {
    let too_big = format!("{}0\n", usize::MAX);
    assert_eq!(read_index(&too_big), Err(ParseErrorKind::PosOverflow));
}

#[test]
fn choices_carry_the_parse_error_kind() {
    assert_eq!(check_host_choice("\n", 3), Choice::Unparsable(ParseErrorKind::Empty));
    assert_eq!(check_host_choice("a\n", 3), Choice::Unparsable(ParseErrorKind::InvalidDigit));
    assert_eq!(check_device_choice("?\n", 3), Choice::Unparsable(ParseErrorKind::InvalidDigit));
    assert_eq!(check_config_choice("+\n", 2), Choice::Unparsable(ParseErrorKind::InvalidDigit));
    let too_big = format!("{}9\n", usize::MAX);
    assert_eq!(check_config_choice(&too_big, 2), Choice::Unparsable(ParseErrorKind::PosOverflow));
}
