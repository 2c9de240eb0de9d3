use qtest_socket::{Irq, IrqState, Response};

#[test]
fn test_response_from() {
    let response = Response::from("OK");
    assert_eq!(response, Response::Okay);

    let response = Response::from("OK val");
    assert_eq!(response, Response::OkVal("val".to_string()));

    let response = Response::from("ERR error");
    assert_eq!(response, Response::Error("ERR error".to_string()));
}

#[test]
fn test_irq_try_from() {
    let irq = Irq::try_from("invalid");
    assert_eq!(irq, Err("Invalid IRQ string"));

    let irq = Irq::try_from("IRQ invalid");
    assert_eq!(irq, Err("Invalid IRQ type"));

    let irq = Irq::try_from("IRQ raise -1");
    assert_eq!(irq, Err("Invalid IRQ line"));

    let irq = Irq::try_from("IRQ raise 1 invalid");
    assert_eq!(irq, Err("Invalid IRQ string"));

    let irq = Irq::try_from("IRQ raise 1");
    assert_eq!(irq, Ok(Irq::new(1, IrqState::Raise)));

    let irq = Irq::try_from("IRQ lower 2");
    assert_eq!(irq, Ok(Irq::new(2, IrqState::Lower)));
}

#[test]
fn response_rejoins_payload_tokens_with_single_spaces() {
    let response = Response::from("OK  several   spaced words ");
    assert_eq!(response, Response::OkVal("several spaced words".to_string()));
}

#[test]
fn response_empty_line_is_an_error() {
    assert_eq!(Response::from(""), Response::Error("".to_string()));
    assert_eq!(Response::from("   "), Response::Error("   ".to_string()));
}

#[test]
fn irq_line_number_overflow_is_rejected() {
    let irq = Irq::try_from("IRQ raise 99999999999999999999999");
    assert_eq!(irq, Err("Invalid IRQ line"));
}

#[test]
fn irq_missing_line_number_is_rejected() {
    let irq = Irq::try_from("IRQ raise");
    assert_eq!(irq, Err("Invalid IRQ line"));
}

#[test]
fn every_ascii_whitespace_character_separates_tokens() {
    let response = Response::from("OK\u{b}5");
    assert_eq!(response, Response::OkVal("5".to_string()));

    let response = Response::from("OK\u{c}a\tb");
    assert_eq!(response, Response::OkVal("a b".to_string()));

    let irq = Irq::try_from("IRQ\u{b}raise\u{c}1");
    assert_eq!(irq, Ok(Irq::new(1, IrqState::Raise)));
}
