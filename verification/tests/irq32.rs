use qtest_socket::parser::irq::{IRQState, IRQ};

#[test]
fn irq32_parses_raise_and_lower() {
    assert_eq!(IRQ::try_from("IRQ raise 1"), Ok(IRQ::new(1, IRQState::Raise)));
    assert_eq!(IRQ::try_from("IRQ lower 2"), Ok(IRQ::new(2, IRQState::Lower)));
}

#[test]
fn irq32_rejects_trailing_tokens() {
    assert_eq!(IRQ::try_from("IRQ raise 1 extra"), Err("Invalid IRQ string"));
}

#[test]
fn irq32_rejects_bad_lines() {
    assert_eq!(IRQ::try_from("not-irq"), Err("Invalid IRQ string"));
    assert_eq!(IRQ::try_from("IRQ sideways 1"), Err("Invalid IRQ type"));
    assert_eq!(IRQ::try_from("IRQ raise -1"), Err("Invalid IRQ line"));
    assert_eq!(IRQ::try_from("IRQ raise 4294967296"), Err("Invalid IRQ line"));
}
