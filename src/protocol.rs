//! The command language of a connection: one trimmed line, one command.

use vstd::prelude::*;
use vstd::string::*;
use crate::text::{split_at_first_space, split_at_space, same_text, trim, trimmed};

verus! {

/// What a line asks for.
pub enum Command {
    /// `/register <user> <pass>`
    Register { user: String, pass: String },
    /// `/login <user> <pass>`
    Login { user: String, pass: String },
    /// `/msg <text>`
    Msg { text: String },
    /// `/whisper <target> <text>`
    Whisper { target: String, text: String },
    /// `/exit`, whatever follows it
    Exit,
    /// Any other non-empty line, taken whole
    Chat { line: String },
    /// A line of white space only
    Empty,
    /// `/register`, `/login` or `/whisper` with a single word after it, or
    /// `/register` or `/login` whose username is empty (two spaces after it)
    Malformed,
}

/// The abstract form of a [`Command`].
pub ghost enum CommandModel {
    Register(Seq<char>, Seq<char>),
    Login(Seq<char>, Seq<char>),
    Msg(Seq<char>),
    Whisper(Seq<char>, Seq<char>),
    Exit,
    Chat(Seq<char>),
    Empty,
    Malformed,
}

impl View for Command {
    type V = CommandModel;

    open spec fn view(&self) -> CommandModel {
        match self {
            Command::Register { user, pass } => CommandModel::Register(user@, pass@),
            Command::Login { user, pass } => CommandModel::Login(user@, pass@),
            Command::Msg { text } => CommandModel::Msg(text@),
            Command::Whisper { target, text } => CommandModel::Whisper(target@, text@),
            Command::Exit => CommandModel::Exit,
            Command::Chat { line } => CommandModel::Chat(line@),
            Command::Empty => CommandModel::Empty,
            Command::Malformed => CommandModel::Malformed,
        }
    }
}

/// The command of an already trimmed, non-empty line `t`.
pub open spec fn command_of_trimmed(t: Seq<char>) -> CommandModel {
    let head = split_at_space(t).0;
    let rest = split_at_space(t).1;
    if head == "/exit"@ {
        CommandModel::Exit
    } else if rest is Some {
        let r = rest->0;
        let pair = split_at_space(r);
        if head == "/register"@ {
            if pair.1 is Some && pair.0.len() > 0 {
                CommandModel::Register(pair.0, pair.1->0)
            } else {
                CommandModel::Malformed
            }
        } else if head == "/login"@ {
            if pair.1 is Some && pair.0.len() > 0 {
                CommandModel::Login(pair.0, pair.1->0)
            } else {
                CommandModel::Malformed
            }
        } else if head == "/msg"@ {
            CommandModel::Msg(r)
        } else if head == "/whisper"@ {
            if pair.1 is Some {
                CommandModel::Whisper(pair.0, pair.1->0)
            } else {
                CommandModel::Malformed
            }
        } else {
            CommandModel::Chat(t)
        }
    } else {
        CommandModel::Chat(t)
    }
}

/// The command that a received line carries.
pub open spec fn command_of(line: Seq<char>) -> CommandModel {
    let t = trimmed(line);
    if t.len() == 0 {
        CommandModel::Empty
    } else {
        command_of_trimmed(t)
    }
}

/// A line never asks to register or log in an empty username.
pub proof fn lemma_credential_user_not_empty(line: Seq<char>)
    ensures
        command_of(line) matches CommandModel::Register(u, _) ==> u.len() > 0,
        command_of(line) matches CommandModel::Login(u, _) ==> u.len() > 0,
{
    let t = trimmed(line);
    if t.len() > 0 {
        lemma_trimmed_user_not_empty(t);
    }
}

proof fn lemma_trimmed_user_not_empty(t: Seq<char>)
    ensures
        command_of_trimmed(t) matches CommandModel::Register(u, _) ==> u.len() > 0,
        command_of_trimmed(t) matches CommandModel::Login(u, _) ==> u.len() > 0,
{
}

/// Reads one line of the protocol.
pub fn parse_command(line: &str) -> (r: Command)
    ensures
        r@ == command_of(line@),
{
    let t = trim(line);
    if t.unicode_len() == 0 {
        Command::Empty
    } else {
        parse_trimmed(t)
    }
}

fn parse_trimmed(t: &str) -> (r: Command)
    requires
        t@.len() > 0,
    ensures
        r@ == command_of_trimmed(t@),
{
    let (head, rest) = split_at_first_space(t);
    if same_text(head, "/exit") {
        return Command::Exit;
    }
    match rest {
        None => Command::Chat { line: String::from_str(t) },
        Some(r) => {
            if same_text(head, "/register") {
                match split_pair(r) {
                    Some((u, p)) => {
                        if u.unicode_len() > 0 {
                            Command::Register { user: u, pass: p }
                        } else {
                            Command::Malformed
                        }
                    },
                    None => Command::Malformed,
                }
            } else if same_text(head, "/login") {
                match split_pair(r) {
                    Some((u, p)) => {
                        if u.unicode_len() > 0 {
                            Command::Login { user: u, pass: p }
                        } else {
                            Command::Malformed
                        }
                    },
                    None => Command::Malformed,
                }
            } else if same_text(head, "/msg") {
                Command::Msg { text: String::from_str(r) }
            } else if same_text(head, "/whisper") {
                match split_pair(r) {
                    Some((u, m)) => Command::Whisper { target: u, text: m },
                    None => Command::Malformed,
                }
            } else {
                Command::Chat { line: String::from_str(t) }
            }
        },
    }
}

/// The two parts of `r` around its first space, if it has one.
fn split_pair(r: &str) -> (p: Option<(String, String)>)
    ensures
        match p {
            Some((a, b)) => split_at_space(r@).1 == Some(b@) && split_at_space(r@).0 == a@,
            None => split_at_space(r@).1 is None,
        },
{
    let (first, second) = split_at_first_space(r);
    match second {
        Some(b) => Some((String::from_str(first), String::from_str(b))),
        None => None,
    }
}

}
