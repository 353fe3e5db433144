//! The per-connection command engine: immediate execution, or staging in a
//! journal between BEGIN and COMMIT or ABORT.

use crate::commands::{Command, CommandView, UncommittedCommand, UncommittedView};
use crate::queue_table::{contents, created, popped, pushed, QueueName, QueueTable, TableModel};
use vstd::prelude::*;
use vstd::utf8::encode_utf8;

verus! {

// ---------------------------------------------------------------------------
// Results
// ---------------------------------------------------------------------------

/// What a command gives back: the reply, and whether the session goes on.
#[derive(Debug, PartialEq, Eq)]
pub enum CommandResult {
    /// Done; nothing is sent.
    Success,
    /// Done; the text is sent.
    Data(String),
    /// Refused; the text is sent.
    Error(String),
    /// The client asked to leave.
    Disconnect,
}

/// A command result as a mathematical value.
pub enum CommandResultView {
    Success,
    Data(Seq<char>),
    Error(Seq<char>),
    Disconnect,
}

impl View for CommandResult {
    type V = CommandResultView;

    open spec fn view(&self) -> CommandResultView {
        match self {
            CommandResult::Success => CommandResultView::Success,
            CommandResult::Data(message) => CommandResultView::Data(message@),
            CommandResult::Error(message) => CommandResultView::Error(message@),
            CommandResult::Disconnect => CommandResultView::Disconnect,
        }
    }
}

/// Carriage return and line feed, which end every reply.
pub open spec fn crlf() -> Seq<u8> {
    seq![0x0Du8, 0x0Au8]
}

/// The bytes that are sent for a result.
pub open spec fn reply(result: CommandResultView) -> Seq<u8> {
    match result {
        CommandResultView::Success => Seq::empty(),
        CommandResultView::Data(message) => encode_utf8(message) + crlf(),
        CommandResultView::Error(message) => encode_utf8(message) + crlf(),
        CommandResultView::Disconnect => encode_utf8("Bye Bye"@) + crlf(),
    }
}

/// Appends `text` and the end of line to `writer`.
fn write_line(writer: &mut Vec<u8>, text: &str)
    ensures
        final(writer)@ == old(writer)@ + (encode_utf8(text@) + crlf()),
{
    writer.extend_from_slice(text.as_bytes());
    writer.push(0x0Du8);
    writer.push(0x0Au8);
}

impl CommandResult {
    /// Appends the reply to the bytes that go out to the client.
    pub fn write(self, writer: &mut Vec<u8>)
        ensures
            final(writer)@ == old(writer)@ + reply(self@),
    {
        match self {
            CommandResult::Success => {},
            CommandResult::Data(message) => {
                write_line(writer, message.as_str());
            },
            CommandResult::Error(message) => {
                write_line(writer, message.as_str());
            },
            CommandResult::Disconnect => {
                write_line(writer, "Bye Bye");
            },
        }
    }

    /// Whether the session goes on after this result.
    pub fn command_result(&self) -> (result: TransactionResult)
        ensures
            result == (if self@ is Disconnect {
                TransactionResult::Quit
            } else {
                TransactionResult::Continue
            }),
    {
        match self {
            CommandResult::Disconnect => TransactionResult::Quit,
            _ => TransactionResult::Continue,
        }
    }
}

/// What the session does after a message.
#[derive(Debug, PartialEq, Eq, Clone, Copy, Structural)]
pub enum TransactionResult {
    /// Go on with the next message.
    Continue,
    /// End the session.
    Quit,
    /// Nothing was consumed: the message at hand waits for data to arrive
    /// on an empty queue, and is to be tried again later.
    Wait,
}

impl TransactionResult {
    pub fn is_quit(&self) -> (result: bool)
        ensures
            result == (*self == TransactionResult::Quit),
    {
        match self {
            TransactionResult::Quit => true,
            _ => false,
        }
    }
}

// ---------------------------------------------------------------------------
// What the commands mean
// ---------------------------------------------------------------------------

/// The state after a command and what the command gave back. `result` is
/// `None` where the command waits for data.
pub struct Outcome {
    pub journal: Seq<UncommittedView>,
    pub table: TableModel,
    pub result: Option<CommandResultView>,
}

/// A pop: the head of the queue where there is one.
pub open spec fn spec_pop(table: TableModel, queue_name: Seq<char>) -> (
    TableModel,
    CommandResultView,
) {
    if !table.contains_key(queue_name) {
        (table, CommandResultView::Error("NO SUCH QUEUE"@))
    } else if table[queue_name].len() == 0 {
        (table, CommandResultView::Error("NO DATA"@))
    } else {
        (popped(table, queue_name), CommandResultView::Data(table[queue_name][0]))
    }
}

/// One attempt at a blocking pop: the queue is created where it is missing;
/// the head is taken where there is one.
pub open spec fn spec_blocking_pop(table: TableModel, queue_name: Seq<char>) -> (
    TableModel,
    Option<Seq<char>>,
) {
    if contents(table, queue_name).len() == 0 {
        (created(table, queue_name), None)
    } else {
        (popped(table, queue_name), Some(table[queue_name][0]))
    }
}

/// What a commit does for one journal entry: a pending push is applied.
pub open spec fn commit_entry(table: TableModel, entry: UncommittedView) -> TableModel {
    match entry {
        UncommittedView::Push(value, queue_name) => pushed(table, queue_name, value),
        _ => table,
    }
}

/// What a rollback does for one journal entry: a popped payload goes back to
/// the tail of its queue.
pub open spec fn rollback_entry(table: TableModel, entry: UncommittedView) -> TableModel {
    match entry {
        UncommittedView::Pop(value, queue_name) => pushed(table, queue_name, value),
        _ => table,
    }
}

/// The table after a commit of `journal`, entry by entry from the oldest.
pub open spec fn committed(table: TableModel, journal: Seq<UncommittedView>) -> TableModel
    decreases journal.len(),
{
    if journal.len() == 0 {
        table
    } else {
        committed(commit_entry(table, journal[0]), journal.drop_first())
    }
}

/// The table after a rollback of `journal`, entry by entry from the oldest.
pub open spec fn rolled_back(table: TableModel, journal: Seq<UncommittedView>) -> TableModel
    decreases journal.len(),
{
    if journal.len() == 0 {
        table
    } else {
        rolled_back(rollback_entry(table, journal[0]), journal.drop_first())
    }
}

/// A command outside a transaction.
pub open spec fn spec_exec_cmd(
    journal: Seq<UncommittedView>,
    table: TableModel,
    cmd: CommandView,
) -> Outcome {
    match cmd {
        CommandView::Push(value, queue_name) => Outcome {
            journal,
            table: pushed(table, queue_name, value),
            result: Some(CommandResultView::Data("SUCCESS"@)),
        },
        CommandView::Pop(queue_name) => Outcome {
            journal,
            table: spec_pop(table, queue_name).0,
            result: Some(spec_pop(table, queue_name).1),
        },
        CommandView::BlockingPop(queue_name) => Outcome {
            journal,
            table: spec_blocking_pop(table, queue_name).0,
            result: match spec_blocking_pop(table, queue_name).1 {
                Some(data) => Some(CommandResultView::Data(data)),
                None => None,
            },
        },
        CommandView::Quit => Outcome {
            journal,
            table,
            result: Some(CommandResultView::Disconnect),
        },
        CommandView::Begin => Outcome {
            journal: journal.push(UncommittedView::Begin),
            table,
            result: Some(CommandResultView::Success),
        },
        CommandView::Commit => Outcome {
            journal,
            table,
            result: Some(CommandResultView::Error("Not in transaction"@)),
        },
        CommandView::Abort => Outcome {
            journal,
            table,
            result: Some(CommandResultView::Error("Not in transaction"@)),
        },
    }
}

/// A command inside a transaction.
pub open spec fn spec_stage_cmd(
    journal: Seq<UncommittedView>,
    table: TableModel,
    cmd: CommandView,
) -> Outcome {
    match cmd {
        CommandView::Push(value, queue_name) => Outcome {
            journal: journal.push(UncommittedView::Push(value, queue_name)),
            table,
            result: Some(CommandResultView::Success),
        },
        CommandView::Pop(queue_name) => Outcome {
            journal: match spec_pop(table, queue_name).1 {
                CommandResultView::Data(data) => journal.push(
                    UncommittedView::Pop(data, queue_name),
                ),
                _ => journal,
            },
            table: spec_pop(table, queue_name).0,
            result: Some(spec_pop(table, queue_name).1),
        },
        CommandView::BlockingPop(queue_name) => Outcome {
            journal: match spec_blocking_pop(table, queue_name).1 {
                Some(data) => journal.push(UncommittedView::Pop(data, queue_name)),
                None => journal,
            },
            table: spec_blocking_pop(table, queue_name).0,
            result: match spec_blocking_pop(table, queue_name).1 {
                Some(data) => Some(CommandResultView::Data(data)),
                None => None,
            },
        },
        CommandView::Quit => Outcome {
            journal,
            table,
            result: Some(CommandResultView::Disconnect),
        },
        CommandView::Begin => Outcome {
            journal,
            table,
            result: Some(CommandResultView::Error("Already in transaction"@)),
        },
        CommandView::Commit => Outcome {
            journal: Seq::empty(),
            table: committed(table, journal),
            result: Some(CommandResultView::Success),
        },
        CommandView::Abort => Outcome {
            journal: Seq::empty(),
            table: rolled_back(table, journal),
            result: Some(CommandResultView::Success),
        },
    }
}

/// A command: staged where a transaction is open, which is where the journal
/// holds anything, and immediate where none is.
pub open spec fn spec_exec(
    journal: Seq<UncommittedView>,
    table: TableModel,
    cmd: CommandView,
) -> Outcome {
    if journal.len() > 0 {
        spec_stage_cmd(journal, table, cmd)
    } else {
        spec_exec_cmd(journal, table, cmd)
    }
}

pub open spec fn result_model(result: Option<CommandResult>) -> Option<CommandResultView> {
    match result {
        Some(result) => Some(result@),
        None => None,
    }
}

/// The journal entries as mathematical values.
pub open spec fn journal_model(entries: Seq<UncommittedCommand>) -> Seq<UncommittedView> {
    Seq::new(entries.len(), |i: int| entries[i]@)
}

// ---------------------------------------------------------------------------
// The engine
// ---------------------------------------------------------------------------

/// The journal of one connection. Its view lists the entries from the oldest.
pub struct Transaction {
    uncommitted_cmds: Vec<UncommittedCommand>,
}

impl View for Transaction {
    type V = Seq<UncommittedView>;

    closed spec fn view(&self) -> Seq<UncommittedView> {
        journal_model(self.uncommitted_cmds@)
    }
}

impl Transaction {
    /// A connection that is in no transaction.
    pub fn new() -> (transaction: Transaction)
        ensures
            transaction@ == Seq::<UncommittedView>::empty(),
    {
        let transaction = Transaction { uncommitted_cmds: Vec::new() };
        transaction
    }

    /// Runs one command. Returns `None` where the command is a blocking pop
    /// and its queue holds nothing: the queue exists afterwards, nothing else
    /// has changed, and the caller tries the command again later.
    pub fn exec(&mut self, cmd: Command, queue_table: &mut QueueTable) -> (result: Option<
        CommandResult,
    >)
        requires
            old(queue_table).wf(),
        ensures
            final(queue_table).wf(),
            final(self)@ == spec_exec(old(self)@, old(queue_table)@, cmd@).journal,
            final(queue_table)@ == spec_exec(old(self)@, old(queue_table)@, cmd@).table,
            result_model(result) == spec_exec(old(self)@, old(queue_table)@, cmd@).result,
    {
        if self.uncommitted_cmds.len() > 0 {
            self.stage_cmd(cmd, queue_table)
        } else {
            self.exec_cmd(cmd, queue_table)
        }
    }

    fn push_entry(&mut self, entry: UncommittedCommand)
        ensures
            final(self)@ == old(self)@.push(entry@),
    {
        self.uncommitted_cmds.push(entry);
    }

    fn exec_cmd(&mut self, cmd: Command, queue_table: &mut QueueTable) -> (result: Option<
        CommandResult,
    >)
        requires
            old(queue_table).wf(),
        ensures
            final(queue_table).wf(),
            final(self)@ == spec_exec_cmd(old(self)@, old(queue_table)@, cmd@).journal,
            final(queue_table)@ == spec_exec_cmd(old(self)@, old(queue_table)@, cmd@).table,
            result_model(result) == spec_exec_cmd(old(self)@, old(queue_table)@, cmd@).result,
    {
        match cmd {
            Command::Push(value, queue_name) => {
                exec_push(value, queue_table, queue_name);
                Some(CommandResult::Data("SUCCESS".to_string()))
            },
            Command::Pop(queue_name) => Some(exec_pop(queue_table, queue_name)),
            Command::BlockingPop(queue_name) => {
                match exec_blocking_pop(queue_table, queue_name) {
                    Some(data) => Some(CommandResult::Data(data)),
                    None => None,
                }
            },
            Command::Quit => Some(CommandResult::Disconnect),
            Command::Begin => {
                self.push_entry(UncommittedCommand::Begin);
                Some(CommandResult::Success)
            },
            Command::Abort => Some(CommandResult::Error("Not in transaction".to_string())),
            Command::Commit => Some(CommandResult::Error("Not in transaction".to_string())),
        }
    }

    fn stage_cmd(&mut self, cmd: Command, queue_table: &mut QueueTable) -> (result: Option<
        CommandResult,
    >)
        requires
            old(queue_table).wf(),
        ensures
            final(queue_table).wf(),
            final(self)@ == spec_stage_cmd(old(self)@, old(queue_table)@, cmd@).journal,
            final(queue_table)@ == spec_stage_cmd(old(self)@, old(queue_table)@, cmd@).table,
            result_model(result) == spec_stage_cmd(old(self)@, old(queue_table)@, cmd@).result,
    {
        match cmd {
            Command::Push(value, queue_name) => {
                self.push_entry(UncommittedCommand::Push(value, queue_name));
                Some(CommandResult::Success)
            },
            Command::Pop(queue_name) => {
                let result = exec_pop(queue_table, queue_name.clone());
                match result {
                    CommandResult::Data(data) => {
                        self.push_entry(UncommittedCommand::Pop(data.clone(), queue_name));
                        Some(CommandResult::Data(data))
                    },
                    result => Some(result),
                }
            },
            Command::BlockingPop(queue_name) => {
                match exec_blocking_pop(queue_table, queue_name.clone()) {
                    Some(data) => {
                        self.push_entry(UncommittedCommand::Pop(data.clone(), queue_name));
                        Some(CommandResult::Data(data))
                    },
                    None => None,
                }
            },
            Command::Quit => Some(CommandResult::Disconnect),
            Command::Begin => Some(CommandResult::Error("Already in transaction".to_string())),
            Command::Abort => {
                self.rollback(queue_table);
                Some(CommandResult::Success)
            },
            Command::Commit => {
                self.commit(queue_table);
                Some(CommandResult::Success)
            },
        }
    }

    /// Ends the transaction, if one is open, and undoes its pops: each
    /// payload that it took goes back to the tail of its queue, in the order
    /// in which they were taken. Its pending pushes are dropped.
    pub fn rollback(&mut self, queue_table: &mut QueueTable)
        requires
            old(queue_table).wf(),
        ensures
            final(queue_table).wf(),
            final(self)@ == Seq::<UncommittedView>::empty(),
            final(queue_table)@ == rolled_back(old(queue_table)@, old(self)@),
    {
        let mut entries: Vec<UncommittedCommand> = Vec::new();
        std::mem::swap(&mut self.uncommitted_cmds, &mut entries);
        let ghost journal = journal_model(entries@);
        assert(journal.skip(0) =~= journal);
        for cmd in it: entries
            invariant
                queue_table.wf(),
                journal == journal_model(it.seq()),
                rolled_back(old(queue_table)@, journal) == rolled_back(
                    queue_table@,
                    journal.skip(it.index() as int),
                ),
        {
            proof {
                let rest = journal.skip(it.index() as int);
                assert(rest.drop_first() =~= journal.skip(it.index() + 1));
            }
            match cmd {
                UncommittedCommand::Pop(value, queue_name) => {
                    exec_push(value, queue_table, queue_name);
                },
                _ => {},
            }
        }
    }

    /// Ends the transaction and applies its pending pushes, in the order in
    /// which they were made. What it popped stays taken.
    fn commit(&mut self, queue_table: &mut QueueTable)
        requires
            old(queue_table).wf(),
        ensures
            final(queue_table).wf(),
            final(self)@ == Seq::<UncommittedView>::empty(),
            final(queue_table)@ == committed(old(queue_table)@, old(self)@),
    {
        let mut entries: Vec<UncommittedCommand> = Vec::new();
        std::mem::swap(&mut self.uncommitted_cmds, &mut entries);
        let ghost journal = journal_model(entries@);
        assert(journal.skip(0) =~= journal);
        for cmd in it: entries
            invariant
                queue_table.wf(),
                journal == journal_model(it.seq()),
                committed(old(queue_table)@, journal) == committed(
                    queue_table@,
                    journal.skip(it.index() as int),
                ),
        {
            proof {
                let rest = journal.skip(it.index() as int);
                assert(rest.drop_first() =~= journal.skip(it.index() + 1));
            }
            match cmd {
                UncommittedCommand::Push(value, queue_name) => {
                    exec_push(value, queue_table, queue_name);
                },
                _ => {},
            }
        }
    }
}

/// Appends `value` to the queue, which is created where it is missing.
fn exec_push(value: String, queue_table: &mut QueueTable, queue_name: QueueName)
    requires
        old(queue_table).wf(),
    ensures
        final(queue_table).wf(),
        final(queue_table)@ == pushed(old(queue_table)@, queue_name@, value@),
{
    let queue = queue_table.get_or_create_queue(queue_name);
    queue.push_back(value);
}

/// Takes the head of the queue, if the queue exists and holds anything.
fn exec_pop(queue_table: &mut QueueTable, queue_name: QueueName) -> (result: CommandResult)
    requires
        old(queue_table).wf(),
    ensures
        final(queue_table).wf(),
        final(queue_table)@ == spec_pop(old(queue_table)@, queue_name@).0,
        result@ == spec_pop(old(queue_table)@, queue_name@).1,
{
    match queue_table.get_queue(&queue_name) {
        Some(queue) => {
            match queue.pop_front() {
                Some(data) => CommandResult::Data(data),
                None => CommandResult::Error("NO DATA".to_string()),
            }
        },
        None => CommandResult::Error("NO SUCH QUEUE".to_string()),
    }
}

/// One attempt at a blocking pop.
fn exec_blocking_pop(queue_table: &mut QueueTable, queue_name: QueueName) -> (data: Option<String>)
    requires
        old(queue_table).wf(),
    ensures
        final(queue_table).wf(),
        final(queue_table)@ == spec_blocking_pop(old(queue_table)@, queue_name@).0,
        match data {
            Some(data) => spec_blocking_pop(old(queue_table)@, queue_name@).1 == Some(data@),
            None => spec_blocking_pop(old(queue_table)@, queue_name@).1 is None,
        },
{
    let queue = queue_table.get_or_create_queue(queue_name);
    queue.pop_front()
}

} // verus!
