use queue_experiments::commands::Command;
use queue_experiments::connection::Connection;
use queue_experiments::queue_table::QueueTable;
use queue_experiments::transaction::TransactionResult;

fn session(table: &mut QueueTable, input: &str) -> String {
    let mut connection = Connection::new(input.as_bytes().to_vec());
    assert_eq!(connection.listen(table), TransactionResult::Quit);
    String::from_utf8(connection.take_output()).unwrap()
}

fn fill(table: &mut QueueTable, queue: &str, values: &[&str]) {
    for value in values {
        table.get_or_create_queue(queue.to_string()).push_back(value.to_string());
    }
}

fn drain(table: &mut QueueTable, queue: &str) -> Vec<String> {
    let mut values = Vec::new();
    while let Some(value) = table.get_or_create_queue(queue.to_string()).pop_front() {
        values.push(value);
    }
    values
}

#[test]
fn listen_stops_for_quit_command() {
    let mut queue_table = QueueTable::new();
    let mut connection = Connection::new(b"QUIT".to_vec());
    assert_eq!(connection.listen(&mut queue_table), TransactionResult::Quit);
}

#[test]
fn process_message_executes_push() {
    let mut queue_table = QueueTable::new();
    let mut connection = Connection::new(b"PUSH 'queue' 'data';".to_vec());
    connection.process_message(&mut queue_table);
    let queue = queue_table.get_queue(&"queue".to_string()).unwrap();
    assert_eq!(queue.pop_front(), Some("data".to_string()));
}

#[test]
fn process_message_outputs_success_for_push() {
    let mut queue_table = QueueTable::new();
    let mut connection = Connection::new(b"PUSH 'queue' 'data';".to_vec());
    connection.process_message(&mut queue_table);
    assert_eq!(
        String::from_utf8(connection.take_output()).unwrap(),
        "SUCCESS\r\n".to_string()
    );
}

#[test]
fn process_message_executes_pop() {
    let mut queue_table = QueueTable::new();
    let queue = queue_table.get_or_create_queue("queue".to_string());
    queue.push_back("data".to_string());
    let mut connection = Connection::new(b"POP 'queue';".to_vec());
    connection.process_message(&mut queue_table);
    let queue = queue_table.get_queue(&"queue".to_string()).unwrap();
    assert_eq!(queue.pop_front(), None);
}

#[test]
fn process_message_outputs_value_for_pop() {
    let mut queue_table = QueueTable::new();
    let queue = queue_table.get_or_create_queue("queue".to_string());
    queue.push_back("data".to_string());
    let mut connection = Connection::new(b"POP 'queue';".to_vec());
    connection.process_message(&mut queue_table);
    assert_eq!(String::from_utf8(connection.take_output()).unwrap(), "data\r\n".to_string());
}

#[test]
fn push_then_pop() {
    let mut table = QueueTable::new();
    assert_eq!(session(&mut table, "PUSH 'q' 'hello';POP 'q';"), "SUCCESS\r\nhello\r\n");
}

#[test]
fn pop_of_missing_queue() {
    let mut table = QueueTable::new();
    assert_eq!(session(&mut table, "POP 'missing';"), "NO SUCH QUEUE\r\n");
}

#[test]
fn pop_of_empty_queue() {
    let mut table = QueueTable::new();
    assert_eq!(
        session(&mut table, "PUSH 'q' 'x';POP 'q';POP 'q';"),
        "SUCCESS\r\nx\r\nNO DATA\r\n"
    );
}

#[test]
fn transaction_commit_hides_push_until_commit() {
    let mut table = QueueTable::new();
    let mut a = Connection::open();
    let mut b = Connection::open();
    a.receive(b"BEGIN;PUSH 'q' 'v';");
    assert_eq!(a.listen(&mut table), TransactionResult::Wait);
    assert_eq!(a.take_output(), Vec::<u8>::new());
    b.receive(b"POP 'q';");
    assert_eq!(b.listen(&mut table), TransactionResult::Wait);
    assert_eq!(b.take_output(), b"NO SUCH QUEUE\r\n".to_vec());
    a.receive(b"COMMIT;POP 'q';");
    assert_eq!(a.listen(&mut table), TransactionResult::Wait);
    assert_eq!(a.take_output(), b"v\r\n".to_vec());
}

#[test]
fn transaction_commit_hides_push_behind_an_empty_queue() {
    let mut table = QueueTable::new();
    table.get_or_create_queue("q".to_string());
    let mut a = Connection::open();
    let mut b = Connection::open();
    a.receive(b"BEGIN;PUSH 'q' 'v';");
    assert_eq!(a.listen(&mut table), TransactionResult::Wait);
    b.receive(b"POP 'q';");
    assert_eq!(b.listen(&mut table), TransactionResult::Wait);
    assert_eq!(b.take_output(), b"NO DATA\r\n".to_vec());
    a.receive(b"COMMIT;POP 'q';");
    assert_eq!(a.listen(&mut table), TransactionResult::Wait);
    assert_eq!(a.take_output(), b"v\r\n".to_vec());
}

#[test]
fn transaction_abort_restores_popped_item_to_tail() {
    let mut table = QueueTable::new();
    fill(&mut table, "q", &["a", "b", "c"]);
    assert_eq!(
        session(&mut table, "BEGIN;POP 'q';ABORT;POP 'q';POP 'q';POP 'q';"),
        "a\r\nb\r\nc\r\na\r\n"
    );
}

#[test]
fn escapes_in_arguments() {
    let mut table = QueueTable::new();
    assert_eq!(session(&mut table, "PUSH 'q' 'it\\'s';POP 'q';"), "SUCCESS\r\nit's\r\n");
}

#[test]
fn quit_says_bye_and_ends() {
    let mut table = QueueTable::new();
    assert_eq!(session(&mut table, "QUIT;"), "Bye Bye\r\n");
}

#[test]
fn nothing_is_read_after_quit() {
    let mut table = QueueTable::new();
    assert_eq!(session(&mut table, "QUIT;PUSH 'q' 'v';"), "Bye Bye\r\n");
    assert!(table.get_queue(&"q".to_string()).is_none());
}

#[test]
fn a_parse_error_is_reported_and_the_session_goes_on() {
    let mut table = QueueTable::new();
    assert_eq!(
        session(&mut table, "FOO;POP a;PUSH 'q' 'v';"),
        "Unknown Command: FOO\r\nUnqouted character: a\r\nSUCCESS\r\n"
    );
}

#[test]
fn semantic_errors_are_reported_and_the_session_goes_on() {
    let mut table = QueueTable::new();
    assert_eq!(
        session(&mut table, "COMMIT;ABORT;BEGIN;BEGIN;COMMIT;QUIT;"),
        "Not in transaction\r\nNot in transaction\r\nAlready in transaction\r\nBye Bye\r\n"
    );
}

#[test]
fn a_message_without_its_delimiter_is_not_run() {
    let mut table = QueueTable::new();
    assert_eq!(session(&mut table, "PUSH 'q' 'a';PUSH 'q' 'b'"), "SUCCESS\r\n");
    assert_eq!(drain(&mut table, "q"), vec!["a".to_string()]);
}

#[test]
fn messages_may_be_split_by_line_ends() {
    let mut table = QueueTable::new();
    assert_eq!(session(&mut table, "PUSH 'q' 'a';\r\nPOP 'q';\r\n"), "SUCCESS\r\na\r\n");
}

#[test]
fn the_end_of_the_stream_rolls_the_transaction_back() {
    let mut table = QueueTable::new();
    fill(&mut table, "q", &["a", "b"]);
    assert_eq!(session(&mut table, "BEGIN;POP 'q';PUSH 'q' 'v';"), "a\r\n");
    assert_eq!(drain(&mut table, "q"), vec!["b".to_string(), "a".to_string()]);
}

#[test]
fn quit_rolls_the_transaction_back() {
    let mut table = QueueTable::new();
    fill(&mut table, "q", &["a", "b"]);
    assert_eq!(session(&mut table, "BEGIN;POP 'q';QUIT;"), "a\r\nBye Bye\r\n");
    assert_eq!(drain(&mut table, "q"), vec!["b".to_string(), "a".to_string()]);
}

#[test]
fn an_open_session_waits_for_the_rest_of_a_message() {
    let mut table = QueueTable::new();
    let mut connection = Connection::open();
    connection.receive(b"PUSH 'q' ");
    assert_eq!(connection.listen(&mut table), TransactionResult::Wait);
    assert_eq!(connection.output(), &Vec::<u8>::new());
    connection.receive(b"'v';POP");
    assert_eq!(connection.listen(&mut table), TransactionResult::Wait);
    assert_eq!(connection.take_output(), b"SUCCESS\r\n".to_vec());
    connection.receive(b" 'q';");
    connection.end_of_input();
    assert_eq!(connection.listen(&mut table), TransactionResult::Quit);
    assert_eq!(connection.take_output(), b"v\r\n".to_vec());
}

#[test]
fn a_blocking_pop_waits_until_data_arrives() {
    let mut table = QueueTable::new();
    let mut consumer = Connection::new(b"BPOP 'q';POP 'q';".to_vec());
    assert_eq!(consumer.listen(&mut table), TransactionResult::Wait);
    assert_eq!(consumer.listen(&mut table), TransactionResult::Wait);
    assert_eq!(consumer.output(), &Vec::<u8>::new());
    assert_eq!(session(&mut table, "POP 'q';PUSH 'q' 'v';"), "NO DATA\r\nSUCCESS\r\n");
    assert_eq!(consumer.listen(&mut table), TransactionResult::Quit);
    assert_eq!(consumer.take_output(), b"v\r\nNO DATA\r\n".to_vec());
}

#[test]
fn handle_command_writes_the_reply() {
    let mut table = QueueTable::new();
    let mut connection = Connection::open();
    assert_eq!(
        connection.handle_command(Command::Pop("q".to_string()), &mut table),
        TransactionResult::Continue
    );
    assert_eq!(
        connection.handle_command(Command::BlockingPop("q".to_string()), &mut table),
        TransactionResult::Wait
    );
    assert_eq!(connection.handle_command(Command::Quit, &mut table), TransactionResult::Quit);
    assert_eq!(connection.take_output(), b"NO SUCH QUEUE\r\nBye Bye\r\n".to_vec());
}
