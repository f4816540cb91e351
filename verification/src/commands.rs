//! The commands of the protocol by name, and the ways in which a line can
//! fail to be one.

use crate::text::same_text;
use vstd::prelude::*;
use vstd::string::StringExecFns;

verus! {

/// The commands that the store understands. Each is written in a line as
/// its name here, in capitals.
#[derive(Debug, Clone, Copy, PartialEq, Eq, Structural)]
pub enum AvailableCommand {
    GET,
    SET,
    DEL,
    PING,
    STATS,
}

/// The positional arguments that a command can take.
#[derive(Debug, Clone, Copy, PartialEq, Eq, Structural)]
pub enum Argument {
    Key,
    Value,
    Ttl,
}

/// Why a line was not carried out.
#[derive(Debug, Clone, PartialEq)]
pub enum CommandError {
    /// The first word, held here, is no command's name.
    UnknownCommand(String),
    /// The command needs the argument and the line does not have it.
    MissingArgument(AvailableCommand, Argument),
    /// The argument is there and is not of the form that the command needs.
    InvalidArgument(AvailableCommand, Argument),
}

/// What a [`CommandError`] holds, as plain mathematical values.
pub enum Failure {
    UnknownCommand(Seq<char>),
    MissingArgument(AvailableCommand, Argument),
    InvalidArgument(AvailableCommand, Argument),
}

impl AvailableCommand {
    /// The command's name as it is written in a line.
    pub open spec fn name(self) -> Seq<char> {
        match self {
            AvailableCommand::GET => "GET"@,
            AvailableCommand::SET => "SET"@,
            AvailableCommand::DEL => "DEL"@,
            AvailableCommand::PING => "PING"@,
            AvailableCommand::STATS => "STATS"@,
        }
    }

    /// The command that `word` names; the comparison heeds case.
    pub open spec fn named(word: Seq<char>) -> Option<AvailableCommand> {
        if word == AvailableCommand::GET.name() {
            Some(AvailableCommand::GET)
        } else if word == AvailableCommand::SET.name() {
            Some(AvailableCommand::SET)
        } else if word == AvailableCommand::DEL.name() {
            Some(AvailableCommand::DEL)
        } else if word == AvailableCommand::PING.name() {
            Some(AvailableCommand::PING)
        } else if word == AvailableCommand::STATS.name() {
            Some(AvailableCommand::STATS)
        } else {
            None
        }
    }

    /// The command's name as it is written in a line.
    pub fn as_str(&self) -> (s: &'static str)
        ensures
            s@ == self.name(),
    {
        match self {
            AvailableCommand::GET => "GET",
            AvailableCommand::SET => "SET",
            AvailableCommand::DEL => "DEL",
            AvailableCommand::PING => "PING",
            AvailableCommand::STATS => "STATS",
        }
    }

    /// Looks a command up by its name.
    pub fn from_str(word: &str) -> (r: Result<AvailableCommand, CommandError>)
        ensures
            match r {
                Ok(c) => AvailableCommand::named(word@) == Some(c),
                Err(e) => AvailableCommand::named(word@) is None && e@
                    == Failure::UnknownCommand(word@),
            },
    {
        if same_text(word, AvailableCommand::GET.as_str()) {
            Ok(AvailableCommand::GET)
        } else if same_text(word, AvailableCommand::SET.as_str()) {
            Ok(AvailableCommand::SET)
        } else if same_text(word, AvailableCommand::DEL.as_str()) {
            Ok(AvailableCommand::DEL)
        } else if same_text(word, AvailableCommand::PING.as_str()) {
            Ok(AvailableCommand::PING)
        } else if same_text(word, AvailableCommand::STATS.as_str()) {
            Ok(AvailableCommand::STATS)
        } else {
            Err(CommandError::UnknownCommand(String::from_str(word)))
        }
    }
}

impl Argument {
    /// The argument's name as it is written in a message.
    pub open spec fn label(self) -> Seq<char> {
        match self {
            Argument::Key => "Key"@,
            Argument::Value => "Value"@,
            Argument::Ttl => "TTL"@,
        }
    }

    /// The argument's name as it is written in a message.
    pub fn as_str(&self) -> (s: &'static str)
        ensures
            s@ == self.label(),
    {
        match self {
            Argument::Key => "Key",
            Argument::Value => "Value",
            Argument::Ttl => "TTL",
        }
    }
}

impl View for CommandError {
    type V = Failure;

    open spec fn view(&self) -> Failure {
        match self {
            CommandError::UnknownCommand(word) => Failure::UnknownCommand(word@),
            CommandError::MissingArgument(c, a) => Failure::MissingArgument(*c, *a),
            CommandError::InvalidArgument(c, a) => Failure::InvalidArgument(*c, *a),
        }
    }
}

impl Failure {
    /// The failure in words.
    pub open spec fn description(self) -> Seq<char> {
        match self {
            Failure::UnknownCommand(word) => "Unknown command - "@ + word,
            Failure::MissingArgument(c, a) => c.name() + ": "@ + a.label() + " is not specified"@,
            Failure::InvalidArgument(c, a) => c.name() + ": "@ + a.label() + " is not a number"@,
        }
    }

    /// The line that answers a command that failed.
    pub open spec fn response(self) -> Seq<char> {
        "Error: "@ + self.description()
    }
}

impl CommandError {
    /// The failure in words.
    pub fn description(&self) -> (s: String)
        ensures
            s@ == self@.description(),
    {
        match self {
            CommandError::UnknownCommand(word) => {
                let mut s = String::from_str("Unknown command - ");
                s.append(word.as_str());
                s
            },
            CommandError::MissingArgument(c, a) => {
                let mut s = String::from_str(c.as_str());
                s.append(": ");
                s.append(a.as_str());
                s.append(" is not specified");
                s
            },
            CommandError::InvalidArgument(c, a) => {
                let mut s = String::from_str(c.as_str());
                s.append(": ");
                s.append(a.as_str());
                s.append(" is not a number");
                s
            },
        }
    }

    /// The line that answers a command that failed.
    pub fn response(&self) -> (s: String)
        ensures
            s@ == self@.response(),
    {
        let mut s = String::from_str("Error: ");
        let d = self.description();
        s.append(d.as_str());
        s
    }
}

} // verus!
