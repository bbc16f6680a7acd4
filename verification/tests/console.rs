use blueos_driver::console::{EarlyConsole, TxDecision, EARLY_CONSOLE_SPIN_LIMIT};

#[test]
fn early_console_sends_when_free() {
    let c = EarlyConsole::new();
    assert_eq!(c.after_poll(0, false), TxDecision::Send);
    assert_eq!(c.after_poll(10, false), TxDecision::Send);
}

#[test]
fn early_console_drops_after_spin_limit() {
    let c = EarlyConsole::new();
    assert_eq!(c.after_poll(0, true), TxDecision::PollAgain(1));
    assert_eq!(c.after_poll(EARLY_CONSOLE_SPIN_LIMIT - 2, true), TxDecision::PollAgain(EARLY_CONSOLE_SPIN_LIMIT - 1));
    assert_eq!(c.after_poll(EARLY_CONSOLE_SPIN_LIMIT - 1, true), TxDecision::Drop);
}
