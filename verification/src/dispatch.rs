//! The decision functions behind the two interactive loops: the
//! dashboard's key dispatcher, which turns a keystroke and the current
//! overlay flags into the next flags and one action, and the parser of
//! operator commands in the orchestration prompt. The loops themselves
//! run outside the library and perform the actions these decide.

use vstd::prelude::*;

use crate::text::{chars_of, str_eq, str_starts_with, string_of, trim_spec, trim_str};

verus! {

/// One keystroke as the dashboard reads it.
#[derive(Debug, Clone, Copy, PartialEq, Eq, Structural)]
pub enum KeyInput {
    Char(char),
    Ctrl(char),
    Enter,
    Esc,
    Backspace,
    Tab,
    Up,
    Down,
    Left,
    Right,
    Other,
}

/// A symbolic key to forward to the selected session.
#[derive(Debug, Clone, Copy, PartialEq, Eq, Structural)]
pub enum ForwardKey {
    Enter,
    BackSpace,
    Tab,
    Up,
    Down,
    Left,
    Right,
    Ctrl(char),
}

/// The dashboard's overlay and mode flags.
#[derive(Debug, Clone, Copy, PartialEq, Eq, Structural)]
pub struct UiFlags {
    pub interactive_mode: bool,
    pub project_input_mode: bool,
    pub show_confirm_kill: bool,
    pub show_help: bool,
    pub should_quit: bool,
}

impl UiFlags {
    /// The dashboard's opening state: no overlay, not interactive.
    pub fn new() -> (r: UiFlags)
        ensures
            r == initial_flags(),
    {
        UiFlags {
            interactive_mode: false,
            project_input_mode: false,
            show_confirm_kill: false,
            show_help: false,
            should_quit: false,
        }
    }
}

/// The flags the dashboard starts with.
pub open spec fn initial_flags() -> UiFlags {
    UiFlags {
        interactive_mode: false,
        project_input_mode: false,
        show_confirm_kill: false,
        show_help: false,
        should_quit: false,
    }
}

/// What one keystroke makes the dashboard do.
#[derive(Debug, Clone, Copy, PartialEq, Eq, Structural)]
pub enum DashAction {
    /// Nothing.
    Stay,
    /// Drop the project name typed so far.
    CancelProjectInput,
    /// Add the project named by the typed text.
    SubmitProject,
    /// Remove the last typed character of the project name.
    ProjectInputPop,
    /// Append one typed character to the project name.
    ProjectInputChar(char),
    /// Forward a symbolic key to the selected session.
    SendKey(ForwardKey),
    /// Forward one literal character to the selected session.
    SendText(char),
    /// Kill the selected agent.
    KillSelected,
    /// Move the selection down.
    NavNext,
    /// Move the selection up.
    NavPrevious,
    /// Open an attached view of the selected session.
    Attach,
    /// Spawn a new agent with defaults.
    SpawnAgent,
    /// Refresh the reconciled view.
    Refresh,
}

/// The next flags and action for one keystroke, by overlay precedence:
/// the project-name prompt first, then interactive forwarding, then the
/// kill confirmation, then the help popup, then the normal bindings.
pub open spec fn dispatch_spec(f: UiFlags, k: KeyInput) -> (UiFlags, DashAction) {
    if f.project_input_mode {
        match k {
            KeyInput::Esc => (
                UiFlags { project_input_mode: false, ..f },
                DashAction::CancelProjectInput,
            ),
            KeyInput::Enter => (
                UiFlags { project_input_mode: false, ..f },
                DashAction::SubmitProject,
            ),
            KeyInput::Backspace => (f, DashAction::ProjectInputPop),
            KeyInput::Char(c) => (f, DashAction::ProjectInputChar(c)),
            _ => (f, DashAction::Stay),
        }
    } else if f.interactive_mode {
        match k {
            KeyInput::Esc => (UiFlags { interactive_mode: false, ..f }, DashAction::Stay),
            KeyInput::Enter => (f, DashAction::SendKey(ForwardKey::Enter)),
            KeyInput::Backspace => (f, DashAction::SendKey(ForwardKey::BackSpace)),
            KeyInput::Tab => (f, DashAction::SendKey(ForwardKey::Tab)),
            KeyInput::Up => (f, DashAction::SendKey(ForwardKey::Up)),
            KeyInput::Down => (f, DashAction::SendKey(ForwardKey::Down)),
            KeyInput::Left => (f, DashAction::SendKey(ForwardKey::Left)),
            KeyInput::Right => (f, DashAction::SendKey(ForwardKey::Right)),
            KeyInput::Ctrl(c) => (f, DashAction::SendKey(ForwardKey::Ctrl(c))),
            KeyInput::Char(c) => (f, DashAction::SendText(c)),
            KeyInput::Other => (f, DashAction::Stay),
        }
    } else if f.show_confirm_kill {
        match k {
            KeyInput::Char(c) => if c == 'y' || c == 'Y' {
                (UiFlags { show_confirm_kill: false, ..f }, DashAction::KillSelected)
            } else {
                (UiFlags { show_confirm_kill: false, ..f }, DashAction::Stay)
            },
            _ => (UiFlags { show_confirm_kill: false, ..f }, DashAction::Stay),
        }
    } else if f.show_help {
        (UiFlags { show_help: false, ..f }, DashAction::Stay)
    } else {
        match k {
            KeyInput::Esc => (UiFlags { should_quit: true, ..f }, DashAction::Stay),
            KeyInput::Ctrl(c) => if c == 'c' {
                (UiFlags { should_quit: true, ..f }, DashAction::Stay)
            } else {
                (f, DashAction::Stay)
            },
            KeyInput::Down => (f, DashAction::NavNext),
            KeyInput::Up => (f, DashAction::NavPrevious),
            KeyInput::Enter => (f, DashAction::Attach),
            KeyInput::Char(c) => {
                if c == 'q' {
                    (UiFlags { should_quit: true, ..f }, DashAction::Stay)
                } else if c == 'j' {
                    (f, DashAction::NavNext)
                } else if c == 'k' {
                    (f, DashAction::NavPrevious)
                } else if c == 'i' {
                    (UiFlags { interactive_mode: true, ..f }, DashAction::Stay)
                } else if c == 'n' {
                    (f, DashAction::SpawnAgent)
                } else if c == 'd' {
                    (UiFlags { show_confirm_kill: true, ..f }, DashAction::Stay)
                } else if c == 'p' {
                    (UiFlags { project_input_mode: true, ..f }, DashAction::Stay)
                } else if c == 'r' {
                    (f, DashAction::Refresh)
                } else if c == '?' {
                    (UiFlags { show_help: true, ..f }, DashAction::Stay)
                } else {
                    (f, DashAction::Stay)
                }
            },
            _ => (f, DashAction::Stay),
        }
    }
}

/// Dispatches one keystroke against the current flags.
pub fn dispatch_key(f: UiFlags, k: KeyInput) -> (r: (UiFlags, DashAction))
    ensures
        r == dispatch_spec(f, k),
{
    if f.project_input_mode {
        match k {
            KeyInput::Esc => (
                UiFlags { project_input_mode: false, ..f },
                DashAction::CancelProjectInput,
            ),
            KeyInput::Enter => (
                UiFlags { project_input_mode: false, ..f },
                DashAction::SubmitProject,
            ),
            KeyInput::Backspace => (f, DashAction::ProjectInputPop),
            KeyInput::Char(c) => (f, DashAction::ProjectInputChar(c)),
            _ => (f, DashAction::Stay),
        }
    } else if f.interactive_mode {
        match k {
            KeyInput::Esc => (UiFlags { interactive_mode: false, ..f }, DashAction::Stay),
            KeyInput::Enter => (f, DashAction::SendKey(ForwardKey::Enter)),
            KeyInput::Backspace => (f, DashAction::SendKey(ForwardKey::BackSpace)),
            KeyInput::Tab => (f, DashAction::SendKey(ForwardKey::Tab)),
            KeyInput::Up => (f, DashAction::SendKey(ForwardKey::Up)),
            KeyInput::Down => (f, DashAction::SendKey(ForwardKey::Down)),
            KeyInput::Left => (f, DashAction::SendKey(ForwardKey::Left)),
            KeyInput::Right => (f, DashAction::SendKey(ForwardKey::Right)),
            KeyInput::Ctrl(c) => (f, DashAction::SendKey(ForwardKey::Ctrl(c))),
            KeyInput::Char(c) => (f, DashAction::SendText(c)),
            KeyInput::Other => (f, DashAction::Stay),
        }
    } else if f.show_confirm_kill {
        match k {
            KeyInput::Char(c) => {
                if c == 'y' || c == 'Y' {
                    (UiFlags { show_confirm_kill: false, ..f }, DashAction::KillSelected)
                } else {
                    (UiFlags { show_confirm_kill: false, ..f }, DashAction::Stay)
                }
            },
            _ => (UiFlags { show_confirm_kill: false, ..f }, DashAction::Stay),
        }
    } else if f.show_help {
        (UiFlags { show_help: false, ..f }, DashAction::Stay)
    } else {
        match k {
            KeyInput::Esc => (UiFlags { should_quit: true, ..f }, DashAction::Stay),
            KeyInput::Ctrl(c) => {
                if c == 'c' {
                    (UiFlags { should_quit: true, ..f }, DashAction::Stay)
                } else {
                    (f, DashAction::Stay)
                }
            },
            KeyInput::Down => (f, DashAction::NavNext),
            KeyInput::Up => (f, DashAction::NavPrevious),
            KeyInput::Enter => (f, DashAction::Attach),
            KeyInput::Char(c) => {
                if c == 'q' {
                    (UiFlags { should_quit: true, ..f }, DashAction::Stay)
                } else if c == 'j' {
                    (f, DashAction::NavNext)
                } else if c == 'k' {
                    (f, DashAction::NavPrevious)
                } else if c == 'i' {
                    (UiFlags { interactive_mode: true, ..f }, DashAction::Stay)
                } else if c == 'n' {
                    (f, DashAction::SpawnAgent)
                } else if c == 'd' {
                    (UiFlags { show_confirm_kill: true, ..f }, DashAction::Stay)
                } else if c == 'p' {
                    (UiFlags { project_input_mode: true, ..f }, DashAction::Stay)
                } else if c == 'r' {
                    (f, DashAction::Refresh)
                } else if c == '?' {
                    (UiFlags { show_help: true, ..f }, DashAction::Stay)
                } else {
                    (f, DashAction::Stay)
                }
            },
            _ => (f, DashAction::Stay),
        }
    }
}

/// One operator command read at the orchestration prompt.
pub enum OrchCommand {
    /// Print the command summary.
    Help,
    /// Show every agent's status.
    Status,
    /// Attach to the root agent's session.
    Attach,
    /// Scan the root agent's output for a structured message.
    Check,
    /// Approve the pending plan.
    Approve,
    /// Reject the pending plan.
    Reject,
    /// Leave the orchestration loop.
    Quit,
    /// Send a message to one named agent.
    Send { target: String, message: String },
    /// A send without a message; the usage line is shown.
    SendUsage,
    /// Any other non-empty text is forwarded to the root agent.
    Forward { text: String },
    /// Blank input; nothing happens.
    Nothing,
}

pub open spec fn word_is(s: Seq<char>, a: Seq<char>, b: Seq<char>) -> bool {
    s == a || s == b
}

/// What one trimmed input line commands, at the specification level:
/// the two-way aliases, the `send target message` form, forwarding, or
/// nothing for blank input.
pub open spec fn orch_command_spec(t: Seq<char>) -> OrchSpec {
    if word_is(t, "help"@, "h"@) {
        OrchSpec::Help
    } else if word_is(t, "status"@, "s"@) {
        OrchSpec::Status
    } else if word_is(t, "attach"@, "a"@) {
        OrchSpec::Attach
    } else if word_is(t, "check"@, "c"@) {
        OrchSpec::Check
    } else if word_is(t, "approve"@, "y"@) {
        OrchSpec::Approve
    } else if word_is(t, "reject"@, "n"@) {
        OrchSpec::Reject
    } else if word_is(t, "quit"@, "q"@) {
        OrchSpec::Quit
    } else if "send "@.is_prefix_of(t) {
        let rest = t.skip("send "@.len() as int);
        match crate::protocol::find_char_spec(rest, ' ') {
            Some(i) => OrchSpec::Send(rest.take(i), rest.skip(i + 1)),
            None => OrchSpec::SendUsage,
        }
    } else if t.len() > 0 {
        OrchSpec::Forward(t)
    } else {
        OrchSpec::Nothing
    }
}

/// The specification-level mirror of an operator command.
pub enum OrchSpec {
    Help,
    Status,
    Attach,
    Check,
    Approve,
    Reject,
    Quit,
    Send(Seq<char>, Seq<char>),
    SendUsage,
    Forward(Seq<char>),
    Nothing,
}

/// The command a parsed value stands for.
pub open spec fn orch_view(c: OrchCommand) -> OrchSpec {
    match c {
        OrchCommand::Help => OrchSpec::Help,
        OrchCommand::Status => OrchSpec::Status,
        OrchCommand::Attach => OrchSpec::Attach,
        OrchCommand::Check => OrchSpec::Check,
        OrchCommand::Approve => OrchSpec::Approve,
        OrchCommand::Reject => OrchSpec::Reject,
        OrchCommand::Quit => OrchSpec::Quit,
        OrchCommand::Send { target, message } => OrchSpec::Send(target@, message@),
        OrchCommand::SendUsage => OrchSpec::SendUsage,
        OrchCommand::Forward { text } => OrchSpec::Forward(text@),
        OrchCommand::Nothing => OrchSpec::Nothing,
    }
}

/// Parses one line of operator input, after trimming, into a command.
pub fn parse_orch_command(input: &str) -> (r: OrchCommand)
    ensures
        orch_view(r) == orch_command_spec(trim_spec(input@)),
{
    let t = trim_str(input);
    let ts = t.as_str();
    if str_eq(ts, "help") || str_eq(ts, "h") {
        OrchCommand::Help
    } else if str_eq(ts, "status") || str_eq(ts, "s") {
        OrchCommand::Status
    } else if str_eq(ts, "attach") || str_eq(ts, "a") {
        OrchCommand::Attach
    } else if str_eq(ts, "check") || str_eq(ts, "c") {
        OrchCommand::Check
    } else if str_eq(ts, "approve") || str_eq(ts, "y") {
        OrchCommand::Approve
    } else if str_eq(ts, "reject") || str_eq(ts, "n") {
        OrchCommand::Reject
    } else if str_eq(ts, "quit") || str_eq(ts, "q") {
        OrchCommand::Quit
    } else if str_starts_with(ts, "send ") {
        let rest = crate::text::strip_prefix_str(ts, "send ");
        let rc = chars_of(rest);
        let pos = crate::protocol::find_char_in(&rc, ' ');
        match pos {
            Some(i) => {
                let mut target: Vec<char> = Vec::new();
                let mut k: usize = 0;
                proof {
                    crate::protocol::lemma_find_char_bounds(rc@, ' ');
                }
                while k < i
                    invariant
                        k <= i,
                        i < rc@.len(),
                        target@ == rc@.subrange(0, k as int),
                    decreases i - k,
                {
                    target.push(rc[k]);
                    k = k + 1;
                    proof {
                        assert(target@ =~= rc@.subrange(0, k as int));
                    }
                }
                let mut message: Vec<char> = Vec::new();
                let mut m: usize = i + 1;
                while m < rc.len()
                    invariant
                        i + 1 <= m <= rc@.len(),
                        message@ == rc@.subrange(i + 1, m as int),
                    decreases rc@.len() - m,
                {
                    message.push(rc[m]);
                    m = m + 1;
                    proof {
                        assert(message@ =~= rc@.subrange(i + 1, m as int));
                    }
                }
                proof {
                    assert(target@ =~= rc@.take(i as int));
                    assert(message@ =~= rc@.skip(i + 1));
                }
                OrchCommand::Send {
                    target: string_of(&target),
                    message: string_of(&message),
                }
            },
            None => OrchCommand::SendUsage,
        }
    } else if !ts.is_empty() {
        OrchCommand::Forward { text: t }
    } else {
        OrchCommand::Nothing
    }
}

} // verus!
