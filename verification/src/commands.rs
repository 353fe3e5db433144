//! The commands of the protocol and the entries of a transaction's journal.

use crate::parse_commands::{parse_command, parse_model, spec_parse_command, ParseResult};
use crate::queue_table::QueueName;
use vstd::prelude::*;

verus! {

/// One request of a client.
#[derive(Debug, PartialEq, Eq)]
pub enum Command {
    Quit,
    /// The payload, then the queue it goes to.
    Push(String, QueueName),
    Pop(QueueName),
    BlockingPop(QueueName),
    Begin,
    Commit,
    Abort,
}

/// A command as a mathematical value: strings by their characters.
pub enum CommandView {
    Quit,
    Push(Seq<char>, Seq<char>),
    Pop(Seq<char>),
    BlockingPop(Seq<char>),
    Begin,
    Commit,
    Abort,
}

impl View for Command {
    type V = CommandView;

    open spec fn view(&self) -> CommandView {
        match self {
            Command::Quit => CommandView::Quit,
            Command::Push(value, queue_name) => CommandView::Push(value@, queue_name@),
            Command::Pop(queue_name) => CommandView::Pop(queue_name@),
            Command::BlockingPop(queue_name) => CommandView::BlockingPop(queue_name@),
            Command::Begin => CommandView::Begin,
            Command::Commit => CommandView::Commit,
            Command::Abort => CommandView::Abort,
        }
    }
}

/// An entry of a transaction's journal.
pub enum UncommittedCommand {
    /// Marks that a transaction was begun.
    Begin,
    /// A push that waits for the commit: the payload, then the queue.
    Push(String, QueueName),
    /// A pop that a rollback undoes: the payload that was taken, then the queue.
    Pop(String, QueueName),
}

/// A journal entry as a mathematical value.
pub enum UncommittedView {
    Begin,
    Push(Seq<char>, Seq<char>),
    Pop(Seq<char>, Seq<char>),
}

impl View for UncommittedCommand {
    type V = UncommittedView;

    open spec fn view(&self) -> UncommittedView {
        match self {
            UncommittedCommand::Begin => UncommittedView::Begin,
            UncommittedCommand::Push(value, queue_name) => UncommittedView::Push(
                value@,
                queue_name@,
            ),
            UncommittedCommand::Pop(value, queue_name) => UncommittedView::Pop(value@, queue_name@),
        }
    }
}

impl Command {
    /// Reads one framed message, the delimiter already taken off.
    pub fn parse(buffer: Vec<u8>) -> (result: ParseResult)
        ensures
            parse_model(result) == spec_parse_command(buffer@),
    {
        parse_command(buffer)
    }
}

} // verus!
