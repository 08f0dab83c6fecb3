use grok_pager::jump_command::{parse_jump_args, Action, CommandResult, JumpCommand};

#[test]
fn jump_no_args_opens_picker() {
    let result = JumpCommand.run("");
    assert!(matches!(
        result,
        CommandResult::Action(Action::JumpShowPicker)
    ));
}

#[test]
fn jump_with_number_jumps_directly() {
    let result = JumpCommand.run("10");
    assert!(matches!(
        result,
        CommandResult::Action(Action::JumpToTurn(10))
    ));
}

#[test]
fn jump_rejects_zero() {
    let result = JumpCommand.run("0");
    assert!(matches!(result, CommandResult::Error(msg) if msg.contains("1 or greater")));
}

#[test]
fn jump_rejects_non_numeric() {
    let result = JumpCommand.run("abc");
    assert!(matches!(result, CommandResult::Error(_)));
}

#[test]
fn parse_trims_whitespace() {
    assert_eq!(parse_jump_args("  3  ").unwrap(), Some(3));
    assert_eq!(parse_jump_args("   ").unwrap(), None);
}

#[test]
fn parse_jump_args_messages() {
    assert_eq!(
        parse_jump_args("0"),
        Err("Turn number must be 1 or greater".to_string())
    );
    assert_eq!(
        parse_jump_args("-3"),
        Err("Usage: /jump [N] where N is a turn number (e.g. /jump 10)".to_string())
    );
    assert_eq!(
        parse_jump_args("3 4"),
        Err("Usage: /jump [N] where N is a turn number (e.g. /jump 10)".to_string())
    );
}

#[test]
fn parse_jump_args_follows_usize_parsing() {
    assert_eq!(parse_jump_args("+7"), Ok(Some(7)));
    assert_eq!(parse_jump_args("007"), Ok(Some(7)));
    assert!(parse_jump_args("+").is_err());
    assert!(parse_jump_args("99999999999999999999999").is_err());
    assert_eq!(parse_jump_args("\u{3000}\t12\u{a0}\n"), Ok(Some(12)));
    assert!(parse_jump_args("\u{200b}12").is_err());
}
