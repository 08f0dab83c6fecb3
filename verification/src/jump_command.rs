//! `/jump`: open the turn picker, or `/jump N` to jump straight to turn N.

use vstd::prelude::*;

use crate::text::{
    decimal, is_ascii_digit, is_white_space, lemma_decimal_round_trip, lemma_trimmed_shape,
    parse_usize, parsed_usize, trim, trimmed,
};

verus! {

/// What a slash command asks the application to do.
#[derive(Clone, Copy, Debug, PartialEq, Eq)]
pub enum Action {
    /// Open the turn picker.
    JumpShowPicker,
    /// Jump to the given 1-based turn.
    JumpToTurn(usize),
}

/// The outcome of running a slash command.
#[derive(Debug)]
pub enum CommandResult {
    /// An action for the application to perform.
    Action(Action),
    /// A message for the user explaining why nothing happened.
    Error(String),
}

/// The `/jump` slash command.
pub struct JumpCommand;

/// How a command that a screen mode cannot serve tells the user what to do.
#[derive(Clone, Copy, Debug, PartialEq, Eq)]
pub enum Remedy {
    /// Switch the screen mode; `why` says why the command needs the other one.
    SwitchMode { why: &'static str },
}

/// The screen modes in which a command works.
#[derive(Clone, Copy, Debug, PartialEq, Eq)]
pub enum ModeSupport {
    /// Only the fullscreen mode serves the command.
    FullscreenOnly(Remedy),
}

/// What the command palette shows of a slash command and how it is invoked.
#[derive(Clone, Copy, Debug, PartialEq, Eq)]
pub struct SlashMeta {
    pub name: &'static str,
    pub description: &'static str,
    pub usage: &'static str,
    pub takes_args: bool,
    pub args_required: bool,
    pub session_scoped: bool,
    pub mode_support: ModeSupport,
    pub arg_placeholder: &'static str,
}

/// The message for `/jump 0`.
pub open spec fn zero_turn_message() -> Seq<char> {
    "Turn number must be 1 or greater"@
}

/// The message for an argument that is not a turn number.
pub open spec fn jump_usage_message() -> Seq<char> {
    "Usage: /jump [N] where N is a turn number (e.g. /jump 10)"@
}

/// What `/jump` makes of its argument text: `Ok(None)` (open the picker) when
/// it is blank, `Ok(Some(n))` for a turn number `n >= 1`, otherwise the message
/// to show.
pub open spec fn jump_request(args: Seq<char>) -> Result<Option<usize>, Seq<char>> {
    let t = trimmed(args);
    if t.len() == 0 {
        Ok(None)
    } else {
        match parsed_usize(t) {
            Some(n) => if n == 0 {
                Err(zero_turn_message())
            } else {
                Ok(Some(n))
            },
            None => Err(jump_usage_message()),
        }
    }
}

/// `/jump N` with a turn number `N >= 1` written in decimal asks for turn `N`.
pub proof fn lemma_written_turn_is_requested(n: usize)
    requires
        n >= 1,
    ensures
        jump_request(decimal(n as nat)) == Ok::<Option<usize>, Seq<char>>(Some(n)),
{
    lemma_decimal_round_trip(n);
}

/// Blank argument text opens the picker; `0` is refused with its own
/// message; text whose trimmed form holds a character other than an ASCII
/// digit or `+` is refused with the usage message.
pub proof fn lemma_jump_request_outcomes(args: Seq<char>)
    ensures
        (forall|k: int| 0 <= k < args.len() ==> is_white_space(#[trigger] args[k])) ==> jump_request(
            args,
        ) == Ok::<Option<usize>, Seq<char>>(None),
        jump_request(decimal(0)) == Err::<Option<usize>, Seq<char>>(zero_turn_message()),
        (exists|k: int|
            0 <= k < trimmed(args).len() && !is_ascii_digit(#[trigger] trimmed(args)[k])
                && trimmed(args)[k] != '+') ==> jump_request(args) == Err::<Option<usize>, Seq<char>>(
            jump_usage_message(),
        ),
{
    lemma_trimmed_shape(args);
    lemma_decimal_round_trip(0);
    let t = trimmed(args);
    if forall|k: int| 0 <= k < args.len() ==> is_white_space(#[trigger] args[k]) {
        if t.len() > 0 {
            let (i, j) = choose|i: int, j: int|
                0 <= i <= j <= args.len() && t == args.subrange(i, j) && (forall|k: int|
                    0 <= k < i ==> is_white_space(#[trigger] args[k])) && (forall|k: int|
                    j <= k < args.len() ==> is_white_space(#[trigger] args[k]));
            assert(t[0] == args[i]);
        }
    }
    if exists|k: int| 0 <= k < t.len() && !is_ascii_digit(#[trigger] t[k]) && t[k] != '+' {
        let k = choose|k: int| 0 <= k < t.len() && !is_ascii_digit(#[trigger] t[k]) && t[k] != '+';
        if t.len() > 0 && t[0] == '+' {
            assert(t.drop_first()[k - 1] == t[k]);
        }
        assert(parsed_usize(t) is None);
    }
}

/// Parse `/jump` args: empty gives the picker; a 1-based turn number a direct jump.
pub fn parse_jump_args(args: &str) -> (r: Result<Option<usize>, String>)
    ensures
        match r {
            Ok(target) => jump_request(args@) == Ok::<Option<usize>, Seq<char>>(target),
            Err(msg) => jump_request(args@) == Err::<Option<usize>, Seq<char>>(msg@),
        },
{
    let trimmed_args = trim(args);
    if trimmed_args.is_empty() {
        return Ok(None);
    }
    match parse_usize(trimmed_args) {
        Some(n) => if n == 0 {
            Err(String::from_str("Turn number must be 1 or greater"))
        } else {
            Ok(Some(n))
        },
        None => Err(String::from_str("Usage: /jump [N] where N is a turn number (e.g. /jump 10)")),
    }
}

impl JumpCommand {
    /// `/jump [N]`: takes an optional turn number, works per session, and
    /// only in fullscreen mode (the minimal mode scrolls with the terminal's
    /// native scrollback).
    pub fn meta(&self) -> (r: SlashMeta)
        ensures
            r.name@ == "jump"@,
            r.description@ == "Jump to a turn (/jump [N])"@,
            r.usage@ == "/jump [N]"@,
            r.takes_args,
            !r.args_required,
            r.session_scoped,
            r.mode_support matches ModeSupport::FullscreenOnly(Remedy::SwitchMode { why })
                && why@ == "minimal scrolls with your terminal's native scrollback"@,
            r.arg_placeholder@ == "[N]"@,
    {
        SlashMeta {
            name: "jump",
            description: "Jump to a turn (/jump [N])",
            usage: "/jump [N]",
            takes_args: true,
            args_required: false,
            session_scoped: true,
            mode_support: ModeSupport::FullscreenOnly(
                Remedy::SwitchMode { why: "minimal scrolls with your terminal's native scrollback" },
            ),
            arg_placeholder: "[N]",
        }
    }

    /// Run `/jump` with its argument text.
    pub fn run(&self, args: &str) -> (r: CommandResult)
        ensures
            match r {
                CommandResult::Action(Action::JumpShowPicker) => jump_request(args@) == Ok::<
                    Option<usize>,
                    Seq<char>,
                >(None),
                CommandResult::Action(Action::JumpToTurn(turn)) => jump_request(args@) == Ok::<
                    Option<usize>,
                    Seq<char>,
                >(Some(turn)),
                CommandResult::Error(msg) => jump_request(args@) == Err::<Option<usize>, Seq<char>>(
                    msg@,
                ),
            },
    {
        match parse_jump_args(args) {
            Ok(None) => CommandResult::Action(Action::JumpShowPicker),
            Ok(Some(turn)) => CommandResult::Action(Action::JumpToTurn(turn)),
            Err(msg) => CommandResult::Error(msg),
        }
    }
}

} // verus!
