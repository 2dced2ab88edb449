//! The console of a running server.
use crate::cli::UsersCmd;
use crate::text::push_text;
use crate::trim::{is_blank, split_words};
use vstd::prelude::*;

verus! {

use crate::text::views;
use crate::trim::{all_blank, law_blank_texts, trimmed, words};

/// What is said when the console is ready.
pub const BANNER: &'static str =
    "Console ready. Type `help` for commands; `stop` to shut down.";

/// What comes from the terminal.
#[derive(Debug)]
pub enum Input {
    Line(String),
    /// The terminal is gone.
    Closed,
    /// The terminal could not be read, and why.
    Failed(String),
}

/// What the console does next.
#[derive(Debug)]
pub enum Action {
    /// Reads on.
    Wait,
    /// Reads these words as a command.
    Parse(Vec<String>),
    /// Says this and stops the server.
    Shutdown(String),
    /// Says this and leaves the server running.
    Leave(String),
}

/// What an action holds.
pub enum ActionView {
    Wait,
    Parse(Seq<Seq<char>>),
    Shutdown(Seq<char>),
    Leave(Seq<char>),
}

impl View for Action {
    type V = ActionView;

    open spec fn view(&self) -> ActionView {
        match self {
            Action::Wait => ActionView::Wait,
            Action::Parse(w) => ActionView::Parse(views(w@)),
            Action::Shutdown(m) => ActionView::Shutdown(m@),
            Action::Leave(m) => ActionView::Leave(m@),
        }
    }
}

/// What the console does on an input. A blank line does nothing; a terminal that is
/// gone stops the server.
pub open spec fn next_action(i: Input) -> ActionView {
    match i {
        Input::Line(l) => if trimmed(l@).len() == 0 {
            ActionView::Wait
        } else {
            ActionView::Parse(words(l@))
        },
        Input::Closed => ActionView::Shutdown("stdin closed; shutting down."@),
        Input::Failed(e) => ActionView::Leave("console stdin read error: "@ + e@),
    }
}

/// What the console does on an input.
pub fn on_input(i: &Input) -> (r: Action)
    ensures
        r@ == next_action(*i),
{
    match i {
        Input::Line(l) => if is_blank(l.as_str()) {
            Action::Wait
        } else {
            Action::Parse(split_words(l.as_str()))
        },
        Input::Closed => Action::Shutdown("stdin closed; shutting down.".to_owned()),
        Input::Failed(e) => {
            let mut m: String = "console stdin read error: ".to_owned();
            m.push_str(e.as_str());
            Action::Leave(m)
        },
    }
}

/// A command of the console.
#[derive(Debug)]
pub enum ConsoleCmd {
    /// Shows the commands.
    Help,
    /// Manages accounts.
    Users { cmd: UsersCmd },
    /// Stops the server.
    Stop,
    /// Stops the server.
    Quit,
    /// Stops the server.
    Exit,
}

/// What a command leads to.
#[derive(Debug)]
pub enum Reply {
    /// These lines are shown.
    Say(Vec<String>),
    /// This command on accounts is carried out.
    Run(UsersCmd),
    /// This line is shown and the server stops.
    Stop(String),
}

/// The commands, line by line.
pub open spec fn help_lines() -> Seq<Seq<char>> {
    seq![
        "Commands:"@,
        "  users list"@,
        "  users promote <email>"@,
        "  users demote <email>"@,
        "  users disable <email>"@,
        "  users enable <email>"@,
        "  users delete <email> --yes"@,
        "  stop                       (aliases: quit, exit)"@,
        "  help"@,
        ""@,
        "Not available in console (stdin conflict - use a separate shell):\n  users \
            reset-password <email>"@,
    ]
}

/// The commands, line by line.
fn help() -> (r: Vec<String>)
    ensures
        views(r@) == help_lines(),
{
    let mut out: Vec<String> = Vec::new();
    assert(views(out@) =~= Seq::<Seq<char>>::empty());
    push_text(&mut out, "Commands:".to_owned());
    push_text(&mut out, "  users list".to_owned());
    push_text(&mut out, "  users promote <email>".to_owned());
    push_text(&mut out, "  users demote <email>".to_owned());
    push_text(&mut out, "  users disable <email>".to_owned());
    push_text(&mut out, "  users enable <email>".to_owned());
    push_text(&mut out, "  users delete <email> --yes".to_owned());
    push_text(&mut out, "  stop                       (aliases: quit, exit)".to_owned());
    push_text(&mut out, "  help".to_owned());
    push_text(&mut out, "".to_owned());
    push_text(&mut out, "Not available in console (stdin conflict - use a separate shell):\n  users \
            reset-password <email>".to_owned());
    assert(views(out@) =~= help_lines());
    out
}

/// Why no password is set from the console.
pub open spec fn no_reset_lines() -> Seq<Seq<char>> {
    seq![
        "`users reset-password` is not available in the console - its"@,
        "interactive password prompt would race with the console's stdin reader."@,
        "Run from a separate shell, e.g.:\n  snipdesk-server -c snipdesk-server.toml users \
            reset-password <email>"@,
    ]
}

/// Why no password is set from the console.
fn no_reset() -> (r: Vec<String>)
    ensures
        views(r@) == no_reset_lines(),
{
    let mut out: Vec<String> = Vec::new();
    assert(views(out@) =~= Seq::<Seq<char>>::empty());
    push_text(&mut out, "`users reset-password` is not available in the console - its".to_owned());
    push_text(&mut out, "interactive password prompt would race with the console's stdin reader.".to_owned());
    push_text(&mut out, "Run from a separate shell, e.g.:\n  snipdesk-server -c snipdesk-server.toml users \
            reset-password <email>".to_owned());
    assert(views(out@) =~= no_reset_lines());
    out
}

/// Why nothing is deleted without a confirmation.
pub open spec fn no_confirm_lines() -> Seq<Seq<char>> {
    seq![
        "In the console, `users delete` needs `--yes` (no interactive confirm)."@,
        "Re-run as: users delete <email> --yes"@,
    ]
}

/// Why nothing is deleted without a confirmation.
fn no_confirm() -> (r: Vec<String>)
    ensures
        views(r@) == no_confirm_lines(),
{
    let mut out: Vec<String> = Vec::new();
    assert(views(out@) =~= Seq::<Seq<char>>::empty());
    push_text(&mut out, "In the console, `users delete` needs `--yes` (no interactive confirm).".to_owned());
    push_text(&mut out, "Re-run as: users delete <email> --yes".to_owned());
    assert(views(out@) =~= no_confirm_lines());
    out
}

/// Whether a command on accounts reads from the terminal, which the console reads
/// itself.
pub open spec fn needs_terminal(cmd: UsersCmd) -> bool {
    match cmd {
        UsersCmd::ResetPassword { .. } => true,
        UsersCmd::Delete { yes, .. } => !yes,
        _ => false,
    }
}

/// Whether `r` is what a command on accounts leads to: it is carried out unless it
/// would read from the terminal.
pub open spec fn users_reply(cmd: UsersCmd, r: Reply) -> bool {
    match cmd {
        UsersCmd::ResetPassword { .. } => r matches Reply::Say(l) && views(l@) == no_reset_lines(),
        UsersCmd::Delete { yes: false, .. } => r matches Reply::Say(l) && views(l@)
            == no_confirm_lines(),
        _ => r == Reply::Run(cmd),
    }
}

/// Hands a command on accounts on, unless it would read from the terminal.
pub fn dispatch_users(cmd: UsersCmd) -> (r: Reply)
    ensures
        users_reply(cmd, r),
{
    match &cmd {
        UsersCmd::ResetPassword { .. } => Reply::Say(no_reset()),
        UsersCmd::Delete { yes: false, .. } => Reply::Say(no_confirm()),
        _ => Reply::Run(cmd),
    }
}

/// Whether `r` is what a command leads to.
pub open spec fn replies(cmd: ConsoleCmd, r: Reply) -> bool {
    match cmd {
        ConsoleCmd::Help => r matches Reply::Say(l) && views(l@) == help_lines(),
        ConsoleCmd::Users { cmd } => users_reply(cmd, r),
        ConsoleCmd::Stop => r matches Reply::Stop(m) && m@ == "Stopping..."@,
        ConsoleCmd::Quit => r matches Reply::Stop(m) && m@ == "Stopping..."@,
        ConsoleCmd::Exit => r matches Reply::Stop(m) && m@ == "Stopping..."@,
    }
}

/// What a command leads to.
pub fn handle(cmd: ConsoleCmd) -> (r: Reply)
    ensures
        replies(cmd, r),
{
    match cmd {
        ConsoleCmd::Help => Reply::Say(help()),
        ConsoleCmd::Users { cmd } => dispatch_users(cmd),
        ConsoleCmd::Stop => Reply::Stop("Stopping...".to_owned()),
        ConsoleCmd::Quit => Reply::Stop("Stopping...".to_owned()),
        ConsoleCmd::Exit => Reply::Stop("Stopping...".to_owned()),
    }
}

/// The console never carries out a command that reads from the terminal, and carries
/// out every other command on accounts as it was given.
pub proof fn law_console_keeps_the_terminal(cmd: UsersCmd, r: Reply)
    requires
        replies(ConsoleCmd::Users { cmd }, r),
    ensures
        needs_terminal(cmd) <==> r is Say,
        !needs_terminal(cmd) ==> r == Reply::Run(cmd),
{
}

/// A line is acted on word by word; a blank one is passed over.
pub proof fn law_lines_are_read_word_by_word(line: String)
    ensures
        all_blank(line@) ==> next_action(Input::Line(line)) == ActionView::Wait,
        !all_blank(line@) ==> next_action(Input::Line(line)) == ActionView::Parse(words(line@)),
{
    law_blank_texts(line@);
}

/// The commands that ask at the terminal are kept from the console: a password reset, and a
/// deletion that was not confirmed in advance.
pub proof fn law_what_asks_stays_out(email: String, flag: bool)
    ensures
        needs_terminal(UsersCmd::ResetPassword { email, from_stdin: flag }),
        needs_terminal(UsersCmd::Delete { email, yes: flag }) <==> !flag,
        !needs_terminal(UsersCmd::List),
        !needs_terminal(UsersCmd::Promote { email }),
        !needs_terminal(UsersCmd::Demote { email }),
        !needs_terminal(UsersCmd::Disable { email }),
        !needs_terminal(UsersCmd::Enable { email }),
        !needs_terminal(UsersCmd::Info { email }),
{
}

} // verus!
