//! One client session as a state machine over bytes in memory.
//!
//! A `Connection` is handed the bytes that arrived from its client, runs the
//! messages they hold against a table of queues, and collects the replies. It
//! performs no input or output itself: whoever owns the socket feeds it and
//! sends what it wrote.

use crate::commands::{Command, CommandView, UncommittedView};
use crate::parse_commands::spec_parse_command;
use crate::queue_table::{QueueTable, TableModel};
use crate::transaction::{crlf, reply, rolled_back, spec_exec, Transaction, TransactionResult};
use vstd::prelude::*;
use vstd::utf8::encode_utf8;

verus! {

/// The byte that ends a message.
pub open spec fn delimiter() -> u8 {
    0x3Bu8
}

/// How many bytes stand before the first delimiter, or the length where
/// there is none.
pub open spec fn frame_len(bytes: Seq<u8>) -> nat
    decreases bytes.len(),
{
    if bytes.len() == 0 || bytes[0] == delimiter() {
        0
    } else {
        1 + frame_len(bytes.drop_first())
    }
}

/// Whether the bytes hold a whole message, which is one that its delimiter
/// follows.
pub open spec fn has_frame(bytes: Seq<u8>) -> bool {
    frame_len(bytes) < bytes.len()
}

/// The first message, without its delimiter.
pub open spec fn first_frame(bytes: Seq<u8>) -> Seq<u8> {
    bytes.take(frame_len(bytes) as int)
}

/// What follows the first message and its delimiter.
pub open spec fn after_frame(bytes: Seq<u8>) -> Seq<u8> {
    bytes.skip(frame_len(bytes) as int + 1)
}

pub proof fn lemma_frame_len_bound(bytes: Seq<u8>)
    ensures
        frame_len(bytes) <= bytes.len(),
    decreases bytes.len(),
{
    if bytes.len() > 0 && bytes[0] != delimiter() {
        lemma_frame_len_bound(bytes.drop_first());
    }
}

/// A session as a mathematical value.
pub struct ConnectionView {
    /// The bytes that arrived and were not read yet.
    pub unread: Seq<u8>,
    /// Whether the client's stream has ended.
    pub ended: bool,
    /// The replies that were not taken yet.
    pub written: Seq<u8>,
    /// The journal of the session's transaction.
    pub journal: Seq<UncommittedView>,
}

/// A session after a step, the table after it, and what the session does
/// next.
pub struct Step {
    pub connection: ConnectionView,
    pub table: TableModel,
    pub result: TransactionResult,
}

/// Running one command: its reply is written, unless it has to wait.
pub open spec fn spec_handle_command(
    connection: ConnectionView,
    table: TableModel,
    cmd: CommandView,
) -> Step {
    let outcome = spec_exec(connection.journal, table, cmd);
    match outcome.result {
        Some(result) => Step {
            connection: ConnectionView {
                written: connection.written + reply(result),
                journal: outcome.journal,
                ..connection
            },
            table: outcome.table,
            result: if result is Disconnect {
                TransactionResult::Quit
            } else {
                TransactionResult::Continue
            },
        },
        None => Step {
            connection: ConnectionView { journal: outcome.journal, ..connection },
            table: outcome.table,
            result: TransactionResult::Wait,
        },
    }
}

/// Reading one message and running it. A message that does not parse is
/// answered with the parser's words. Without a whole message at hand the
/// session ends where the stream has ended, and waits where it has not. A
/// message that has to wait stays unread.
pub open spec fn spec_process_message(connection: ConnectionView, table: TableModel) -> Step {
    if !has_frame(connection.unread) {
        Step {
            connection,
            table,
            result: if connection.ended {
                TransactionResult::Quit
            } else {
                TransactionResult::Wait
            },
        }
    } else {
        let read = ConnectionView { unread: after_frame(connection.unread), ..connection };
        match spec_parse_command(first_frame(connection.unread)) {
            Ok(cmd) => {
                let step = spec_handle_command(read, table, cmd);
                if step.result == TransactionResult::Wait {
                    Step {
                        connection: ConnectionView { unread: connection.unread, ..step.connection },
                        ..step
                    }
                } else {
                    step
                }
            },
            Err(message) => Step {
                connection: ConnectionView {
                    written: read.written + (encode_utf8(message) + crlf()),
                    ..read
                },
                table,
                result: TransactionResult::Continue,
            },
        }
    }
}

/// Running the messages at hand, one after the other, until the session
/// quits or has to wait. A session that quits is rolled back.
pub open spec fn spec_listen(connection: ConnectionView, table: TableModel) -> Step
    decreases connection.unread.len(),
    via spec_listen_decreases
{
    let step = spec_process_message(connection, table);
    match step.result {
        TransactionResult::Continue => spec_listen(step.connection, step.table),
        TransactionResult::Quit => Step {
            connection: ConnectionView { journal: Seq::empty(), ..step.connection },
            table: rolled_back(step.table, step.connection.journal),
            result: TransactionResult::Quit,
        },
        TransactionResult::Wait => step,
    }
}

#[via_fn]
proof fn spec_listen_decreases(connection: ConnectionView, table: TableModel) {
    lemma_process_message_consumes(connection, table);
}

/// A message that was handled is no longer unread.
pub proof fn lemma_process_message_consumes(connection: ConnectionView, table: TableModel)
    ensures
        spec_process_message(connection, table).result == TransactionResult::Continue
            ==> spec_process_message(connection, table).connection.unread.len()
            < connection.unread.len(),
{
    lemma_frame_len_bound(connection.unread);
}

/// One client session: the bytes that came in, the replies that go out, and
/// the session's transaction.
pub struct Connection {
    reader: Vec<u8>,
    position: usize,
    ended: bool,
    writer: Vec<u8>,
    transaction: Transaction,
}

impl View for Connection {
    type V = ConnectionView;

    closed spec fn view(&self) -> ConnectionView {
        ConnectionView {
            unread: self.reader@.skip(self.position as int),
            ended: self.ended,
            written: self.writer@,
            journal: self.transaction@,
        }
    }
}

impl Connection {
    /// What was read lies inside what came in.
    pub closed spec fn wf(&self) -> bool {
        self.position <= self.reader@.len()
    }

    /// A session over a whole stream: `reader` holds all that the client
    /// sends, and nothing comes after it.
    pub fn new(reader: Vec<u8>) -> (connection: Connection)
        ensures
            connection.wf(),
            connection@ == (ConnectionView {
                unread: reader@,
                ended: true,
                written: Seq::empty(),
                journal: Seq::empty(),
            }),
    {
        let connection = Connection {
            reader,
            position: 0,
            ended: true,
            writer: Vec::new(),
            transaction: Transaction::new(),
        };
        assert(connection.reader@.skip(0) =~= reader@);
        connection
    }

    /// A session whose stream is open: its bytes are handed over with
    /// `receive` as they arrive.
    pub fn open() -> (connection: Connection)
        ensures
            connection.wf(),
            connection@ == (ConnectionView {
                unread: Seq::empty(),
                ended: false,
                written: Seq::empty(),
                journal: Seq::empty(),
            }),
    {
        let connection = Connection {
            reader: Vec::new(),
            position: 0,
            ended: false,
            writer: Vec::new(),
            transaction: Transaction::new(),
        };
        assert(connection.reader@.skip(0) =~= Seq::<u8>::empty());
        connection
    }

    /// Hands over bytes that arrived from the client.
    pub fn receive(&mut self, bytes: &[u8])
        requires
            old(self).wf(),
        ensures
            final(self).wf(),
            final(self)@ == (ConnectionView { unread: old(self)@.unread + bytes@, ..old(self)@ }),
    {
        if self.position == self.reader.len() {
            self.reader.clear();
            self.position = 0;
        }
        self.reader.extend_from_slice(bytes);
        assert(self.reader@.skip(self.position as int) =~= old(self).reader@.skip(
            old(self).position as int,
        ) + bytes@);
    }

    /// Records that the client's stream has ended.
    pub fn end_of_input(&mut self)
        requires
            old(self).wf(),
        ensures
            final(self).wf(),
            final(self)@ == (ConnectionView { ended: true, ..old(self)@ }),
    {
        self.ended = true;
    }

    /// The replies that were written and not taken yet.
    pub fn output(&self) -> (written: &Vec<u8>)
        ensures
            written@ == self@.written,
    {
        &self.writer
    }

    /// Takes the replies that were written, to send them.
    pub fn take_output(&mut self) -> (written: Vec<u8>)
        requires
            old(self).wf(),
        ensures
            final(self).wf(),
            written@ == old(self)@.written,
            final(self)@ == (ConnectionView { written: Seq::empty(), ..old(self)@ }),
    {
        let mut written: Vec<u8> = Vec::new();
        std::mem::swap(&mut self.writer, &mut written);
        written
    }

    /// Ends the session's transaction as a disconnect does: what it popped
    /// goes back to the tail of its queue. For a session that is torn down
    /// without `listen` having seen it quit.
    pub fn rollback(&mut self, queue_table: &mut QueueTable)
        requires
            old(self).wf(),
            old(queue_table).wf(),
        ensures
            final(self).wf(),
            final(queue_table).wf(),
            final(self)@ == (ConnectionView { journal: Seq::empty(), ..old(self)@ }),
            final(queue_table)@ == rolled_back(old(queue_table)@, old(self)@.journal),
    {
        self.transaction.rollback(queue_table);
    }

    /// Runs the messages at hand until the session quits or has to wait, and
    /// says which of the two it was. A session that quits, by QUIT or by
    /// the end of its stream, is rolled back.
    pub fn listen(&mut self, queue_table: &mut QueueTable) -> (result: TransactionResult)
        requires
            old(self).wf(),
            old(queue_table).wf(),
        ensures
            final(self).wf(),
            final(queue_table).wf(),
            final(self)@ == spec_listen(old(self)@, old(queue_table)@).connection,
            final(queue_table)@ == spec_listen(old(self)@, old(queue_table)@).table,
            result == spec_listen(old(self)@, old(queue_table)@).result,
            result != TransactionResult::Continue,
    {
        loop
            invariant
                self.wf(),
                queue_table.wf(),
                spec_listen(self@, queue_table@) == spec_listen(old(self)@, old(queue_table)@),
            decreases self@.unread.len(),
        {
            proof {
                lemma_process_message_consumes(self@, queue_table@);
            }
            let result = self.process_message(queue_table);
            if result.is_quit() {
                self.transaction.rollback(queue_table);
                return TransactionResult::Quit;
            }
            match result {
                TransactionResult::Wait => {
                    return TransactionResult::Wait;
                },
                _ => {},
            }
        }
    }

    /// Reads one message and runs it.
    pub fn process_message(&mut self, queue_table: &mut QueueTable) -> (result: TransactionResult)
        requires
            old(self).wf(),
            old(queue_table).wf(),
        ensures
            final(self).wf(),
            final(queue_table).wf(),
            final(self)@ == spec_process_message(old(self)@, old(queue_table)@).connection,
            final(queue_table)@ == spec_process_message(old(self)@, old(queue_table)@).table,
            result == spec_process_message(old(self)@, old(queue_table)@).result,
    {
        match self.read_message() {
            Ok(message) => {
                let length: usize = message.len();
                match Command::parse(message) {
                    Ok(cmd) => {
                        let result = self.handle_command(cmd, queue_table);
                        match result {
                            TransactionResult::Wait => {},
                            _ => {
                                self.skip_message(length);
                            },
                        }
                        result
                    },
                    Err(message) => {
                        self.skip_message(length);
                        self.write(message.as_str().as_bytes());
                        self.write(&[0x0Du8, 0x0Au8]);
                        assert(self@.written =~= old(self)@.written + (encode_utf8(message@)
                            + crlf()));
                        TransactionResult::Continue
                    },
                }
            },
            Err(_) => {
                if self.ended {
                    TransactionResult::Quit
                } else {
                    TransactionResult::Wait
                }
            },
        }
    }

    /// Runs one command and writes its reply.
    pub fn handle_command(&mut self, cmd: Command, queue_table: &mut QueueTable) -> (result:
        TransactionResult)
        requires
            old(self).wf(),
            old(queue_table).wf(),
        ensures
            final(self).wf(),
            final(queue_table).wf(),
            final(self)@ == spec_handle_command(old(self)@, old(queue_table)@, cmd@).connection,
            final(queue_table)@ == spec_handle_command(old(self)@, old(queue_table)@, cmd@).table,
            result == spec_handle_command(old(self)@, old(queue_table)@, cmd@).result,
    {
        match self.transaction.exec(cmd, queue_table) {
            Some(transaction_result) => {
                let command_result = transaction_result.command_result();
                transaction_result.write(&mut self.writer);
                command_result
            },
            None => TransactionResult::Wait,
        }
    }

    fn write(&mut self, buf: &[u8])
        requires
            old(self).wf(),
        ensures
            final(self).wf(),
            final(self)@ == (ConnectionView { written: old(self)@.written + buf@, ..old(self)@ }),
    {
        self.writer.extend_from_slice(buf);
        assert(self.writer@ =~= old(self).writer@ + buf@);
    }

    /// Where the first delimiter stands in what came in, or the end of it
    /// where there is none.
    fn find_delimiter(&self) -> (end: usize)
        requires
            self.wf(),
        ensures
            end == self.position + frame_len(self@.unread),
            end <= self.reader@.len(),
    {
        let ghost unread = self@.unread;
        let mut end: usize = self.position;
        while end < self.reader.len() && self.reader[end] != 0x3Bu8
            invariant
                unread == self.reader@.skip(self.position as int),
                self.position <= end <= self.reader@.len(),
                frame_len(unread) == (end - self.position) + frame_len(
                    self.reader@.skip(end as int),
                ),
            decreases self.reader@.len() - end,
        {
            assert(self.reader@.skip(end as int).drop_first() =~= self.reader@.skip(end + 1));
            end = end + 1;
        }
        end
    }

    /// Whether a whole message is at hand. After `listen` has said that the
    /// session waits, this tells a message that waits for data from a
    /// session that waits for more bytes.
    pub fn has_message(&self) -> (result: bool)
        requires
            self.wf(),
        ensures
            result == has_frame(self@.unread),
    {
        let end = self.find_delimiter();
        end < self.reader.len()
    }

    /// The next message, without its delimiter, or an error where no whole
    /// message is at hand. The message stays unread.
    fn read_message(&self) -> (result: Result<Vec<u8>, ()>)
        requires
            self.wf(),
        ensures
            result is Ok <==> has_frame(self@.unread),
            result is Ok ==> result->Ok_0@ == first_frame(self@.unread),
    {
        let end = self.find_delimiter();
        if end < self.reader.len() {
            let mut buffer: Vec<u8> = Vec::new();
            buffer.extend_from_slice(vstd::slice::slice_subrange(
                self.reader.as_slice(),
                self.position,
                end,
            ));
            Ok(buffer)
        } else {
            Err(())
        }
    }

    /// Marks the first message, which is `length` bytes long, and its
    /// delimiter as read.
    fn skip_message(&mut self, length: usize)
        requires
            old(self).wf(),
            has_frame(old(self)@.unread),
            length == frame_len(old(self)@.unread),
        ensures
            final(self).wf(),
            final(self)@ == (ConnectionView {
                unread: after_frame(old(self)@.unread),
                ..old(self)@
            }),
    {
        let total: usize = self.reader.len();
        assert(self.position + length < total);
        self.position = self.position + length + 1;
        assert(self@.unread =~= after_frame(old(self)@.unread));
    }
}

} // verus!
