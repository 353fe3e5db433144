use queue_experiments::commands::Command;
use queue_experiments::queue_table::QueueTable;
use queue_experiments::transaction::{CommandResult, Transaction, TransactionResult};

fn push(queue: &str, value: &str) -> Command {
    Command::Push(value.to_string(), queue.to_string())
}

fn pop(queue: &str) -> Command {
    Command::Pop(queue.to_string())
}

fn bpop(queue: &str) -> Command {
    Command::BlockingPop(queue.to_string())
}

fn data(text: &str) -> Option<CommandResult> {
    Some(CommandResult::Data(text.to_string()))
}

fn error(text: &str) -> Option<CommandResult> {
    Some(CommandResult::Error(text.to_string()))
}

fn fill(table: &mut QueueTable, queue: &str, values: &[&str]) {
    for value in values {
        table.get_or_create_queue(queue.to_string()).push_back(value.to_string());
    }
}

fn drain(table: &mut QueueTable, queue: &str) -> Vec<String> {
    let mut values = Vec::new();
    while let Some(value) = table.get_or_create_queue(queue.to_string()).pop_front() {
        values.push(value);
    }
    values
}

#[test]
fn push_outside_a_transaction_answers_success() {
    let mut table = QueueTable::new();
    let mut transaction = Transaction::new();
    assert_eq!(transaction.exec(push("q", "v"), &mut table), data("SUCCESS"));
    assert_eq!(drain(&mut table, "q"), vec!["v".to_string()]);
}

#[test]
fn pushes_then_pops_come_back_in_order() {
    let mut table = QueueTable::new();
    let mut transaction = Transaction::new();
    let values = ["v1", "v2", "v3", "v4", "v5"];
    for value in values {
        assert_eq!(transaction.exec(push("q", value), &mut table), data("SUCCESS"));
    }
    for value in values {
        assert_eq!(transaction.exec(pop("q"), &mut table), data(value));
    }
    assert_eq!(transaction.exec(pop("q"), &mut table), error("NO DATA"));
}

#[test]
fn pop_of_a_missing_queue_is_an_error() {
    let mut table = QueueTable::new();
    let mut transaction = Transaction::new();
    assert_eq!(transaction.exec(pop("missing"), &mut table), error("NO SUCH QUEUE"));
    assert!(table.get_queue(&"missing".to_string()).is_none());
}

#[test]
fn pop_of_an_empty_queue_is_an_error() {
    let mut table = QueueTable::new();
    let mut transaction = Transaction::new();
    table.get_or_create_queue("q".to_string());
    assert_eq!(transaction.exec(pop("q"), &mut table), error("NO DATA"));
}

#[test]
fn quit_disconnects() {
    let mut table = QueueTable::new();
    let mut transaction = Transaction::new();
    assert_eq!(transaction.exec(Command::Quit, &mut table), Some(CommandResult::Disconnect));
    assert_eq!(transaction.exec(Command::Begin, &mut table), Some(CommandResult::Success));
    assert_eq!(transaction.exec(Command::Quit, &mut table), Some(CommandResult::Disconnect));
}

#[test]
fn commit_and_abort_outside_a_transaction_are_errors() {
    let mut table = QueueTable::new();
    let mut transaction = Transaction::new();
    assert_eq!(transaction.exec(Command::Commit, &mut table), error("Not in transaction"));
    assert_eq!(transaction.exec(Command::Abort, &mut table), error("Not in transaction"));
}

#[test]
fn begin_inside_a_transaction_is_an_error_and_changes_nothing() {
    let mut table = QueueTable::new();
    let mut transaction = Transaction::new();
    assert_eq!(transaction.exec(Command::Begin, &mut table), Some(CommandResult::Success));
    assert_eq!(transaction.exec(push("q", "v"), &mut table), Some(CommandResult::Success));
    assert_eq!(transaction.exec(Command::Begin, &mut table), error("Already in transaction"));
    assert_eq!(transaction.exec(Command::Commit, &mut table), Some(CommandResult::Success));
    assert_eq!(drain(&mut table, "q"), vec!["v".to_string()]);
}

#[test]
fn an_empty_transaction_is_still_a_transaction() {
    let mut table = QueueTable::new();
    let mut transaction = Transaction::new();
    assert_eq!(transaction.exec(Command::Begin, &mut table), Some(CommandResult::Success));
    assert_eq!(transaction.exec(Command::Begin, &mut table), error("Already in transaction"));
    assert_eq!(transaction.exec(Command::Commit, &mut table), Some(CommandResult::Success));
    assert_eq!(transaction.exec(Command::Commit, &mut table), error("Not in transaction"));
}

#[test]
fn begin_push_abort_changes_nothing() {
    let mut table = QueueTable::new();
    fill(&mut table, "q", &["a"]);
    let mut transaction = Transaction::new();
    assert_eq!(transaction.exec(Command::Begin, &mut table), Some(CommandResult::Success));
    assert_eq!(transaction.exec(push("q", "v"), &mut table), Some(CommandResult::Success));
    assert_eq!(transaction.exec(push("new", "w"), &mut table), Some(CommandResult::Success));
    assert_eq!(transaction.exec(Command::Abort, &mut table), Some(CommandResult::Success));
    assert!(table.get_queue(&"new".to_string()).is_none());
    assert_eq!(drain(&mut table, "q"), vec!["a".to_string()]);
    assert_eq!(transaction.exec(Command::Abort, &mut table), error("Not in transaction"));
}

#[test]
fn begin_push_commit_appends_once_at_the_tail() {
    let mut table = QueueTable::new();
    fill(&mut table, "q", &["a", "b"]);
    let mut transaction = Transaction::new();
    assert_eq!(transaction.exec(Command::Begin, &mut table), Some(CommandResult::Success));
    assert_eq!(transaction.exec(push("q", "v"), &mut table), Some(CommandResult::Success));
    fill(&mut table, "q", &["c"]);
    assert_eq!(transaction.exec(Command::Commit, &mut table), Some(CommandResult::Success));
    assert_eq!(
        drain(&mut table, "q"),
        vec!["a".to_string(), "b".to_string(), "c".to_string(), "v".to_string()]
    );
}

#[test]
fn commit_applies_pushes_in_the_order_of_the_journal() {
    let mut table = QueueTable::new();
    let mut transaction = Transaction::new();
    assert_eq!(transaction.exec(Command::Begin, &mut table), Some(CommandResult::Success));
    assert_eq!(transaction.exec(push("a", "1"), &mut table), Some(CommandResult::Success));
    assert_eq!(transaction.exec(push("b", "2"), &mut table), Some(CommandResult::Success));
    assert_eq!(transaction.exec(push("a", "3"), &mut table), Some(CommandResult::Success));
    assert!(table.get_queue(&"a".to_string()).is_none());
    assert_eq!(transaction.exec(Command::Commit, &mut table), Some(CommandResult::Success));
    assert_eq!(drain(&mut table, "a"), vec!["1".to_string(), "3".to_string()]);
    assert_eq!(drain(&mut table, "b"), vec!["2".to_string()]);
}

#[test]
fn begin_pop_abort_moves_the_head_to_the_tail() {
    let mut table = QueueTable::new();
    fill(&mut table, "q", &["a", "b", "c"]);
    let mut transaction = Transaction::new();
    assert_eq!(transaction.exec(Command::Begin, &mut table), Some(CommandResult::Success));
    assert_eq!(transaction.exec(pop("q"), &mut table), data("a"));
    assert_eq!(transaction.exec(Command::Abort, &mut table), Some(CommandResult::Success));
    assert_eq!(
        drain(&mut table, "q"),
        vec!["b".to_string(), "c".to_string(), "a".to_string()]
    );
}

#[test]
fn abort_restores_pops_in_the_order_of_the_journal() {
    let mut table = QueueTable::new();
    fill(&mut table, "q", &["a", "b", "c"]);
    let mut transaction = Transaction::new();
    assert_eq!(transaction.exec(Command::Begin, &mut table), Some(CommandResult::Success));
    assert_eq!(transaction.exec(pop("q"), &mut table), data("a"));
    assert_eq!(transaction.exec(pop("q"), &mut table), data("b"));
    assert_eq!(transaction.exec(Command::Abort, &mut table), Some(CommandResult::Success));
    assert_eq!(
        drain(&mut table, "q"),
        vec!["c".to_string(), "a".to_string(), "b".to_string()]
    );
}

#[test]
fn a_pop_inside_a_transaction_is_seen_by_others_at_once() {
    let mut table = QueueTable::new();
    fill(&mut table, "q", &["a"]);
    let mut first = Transaction::new();
    let mut second = Transaction::new();
    assert_eq!(first.exec(Command::Begin, &mut table), Some(CommandResult::Success));
    assert_eq!(first.exec(pop("q"), &mut table), data("a"));
    assert_eq!(second.exec(pop("q"), &mut table), error("NO DATA"));
}

#[test]
fn a_failed_pop_inside_a_transaction_leaves_the_journal() {
    let mut table = QueueTable::new();
    let mut transaction = Transaction::new();
    assert_eq!(transaction.exec(Command::Begin, &mut table), Some(CommandResult::Success));
    assert_eq!(transaction.exec(pop("missing"), &mut table), error("NO SUCH QUEUE"));
    table.get_or_create_queue("q".to_string());
    assert_eq!(transaction.exec(pop("q"), &mut table), error("NO DATA"));
    assert_eq!(transaction.exec(Command::Abort, &mut table), Some(CommandResult::Success));
    assert!(table.get_queue(&"missing".to_string()).is_none());
    assert_eq!(drain(&mut table, "q"), Vec::<String>::new());
}

#[test]
fn commit_keeps_what_was_popped() {
    let mut table = QueueTable::new();
    fill(&mut table, "q", &["a", "b"]);
    let mut transaction = Transaction::new();
    assert_eq!(transaction.exec(Command::Begin, &mut table), Some(CommandResult::Success));
    assert_eq!(transaction.exec(pop("q"), &mut table), data("a"));
    assert_eq!(transaction.exec(Command::Commit, &mut table), Some(CommandResult::Success));
    assert_eq!(drain(&mut table, "q"), vec!["b".to_string()]);
}

#[test]
fn a_staged_push_is_hidden_until_the_commit() {
    let mut table = QueueTable::new();
    let mut first = Transaction::new();
    let mut second = Transaction::new();
    assert_eq!(first.exec(Command::Begin, &mut table), Some(CommandResult::Success));
    assert_eq!(first.exec(push("q", "v"), &mut table), Some(CommandResult::Success));
    assert_eq!(second.exec(pop("q"), &mut table), error("NO SUCH QUEUE"));
    assert_eq!(first.exec(Command::Commit, &mut table), Some(CommandResult::Success));
    assert_eq!(first.exec(pop("q"), &mut table), data("v"));
}

#[test]
fn a_staged_push_is_hidden_behind_an_empty_queue_too() {
    let mut table = QueueTable::new();
    table.get_or_create_queue("q".to_string());
    let mut first = Transaction::new();
    let mut second = Transaction::new();
    assert_eq!(first.exec(Command::Begin, &mut table), Some(CommandResult::Success));
    assert_eq!(first.exec(push("q", "v"), &mut table), Some(CommandResult::Success));
    assert_eq!(second.exec(pop("q"), &mut table), error("NO DATA"));
    assert_eq!(first.exec(Command::Commit, &mut table), Some(CommandResult::Success));
    assert_eq!(second.exec(pop("q"), &mut table), data("v"));
}

#[test]
fn two_clients_pop_what_they_pushed_in_order() {
    let mut table = QueueTable::new();
    let mut first = Transaction::new();
    let mut second = Transaction::new();
    let mut came_out = Vec::new();
    assert_eq!(first.exec(push("q", "a1"), &mut table), data("SUCCESS"));
    assert_eq!(second.exec(push("q", "b1"), &mut table), data("SUCCESS"));
    came_out.push(second.exec(pop("q"), &mut table));
    assert_eq!(first.exec(push("q", "a2"), &mut table), data("SUCCESS"));
    came_out.push(first.exec(pop("q"), &mut table));
    assert_eq!(second.exec(push("q", "b2"), &mut table), data("SUCCESS"));
    came_out.push(first.exec(pop("q"), &mut table));
    came_out.push(second.exec(pop("q"), &mut table));
    assert_eq!(came_out, vec![data("a1"), data("b1"), data("a2"), data("b2")]);
    assert_eq!(first.exec(pop("q"), &mut table), error("NO DATA"));
}

#[test]
fn a_blocking_pop_takes_the_head() {
    let mut table = QueueTable::new();
    fill(&mut table, "q", &["a", "b"]);
    let mut transaction = Transaction::new();
    assert_eq!(transaction.exec(bpop("q"), &mut table), data("a"));
    assert_eq!(drain(&mut table, "q"), vec!["b".to_string()]);
}

#[test]
fn a_blocking_pop_waits_on_an_empty_queue_and_creates_it() {
    let mut table = QueueTable::new();
    let mut transaction = Transaction::new();
    let mut other = Transaction::new();
    assert_eq!(transaction.exec(bpop("q"), &mut table), None);
    assert_eq!(other.exec(pop("q"), &mut table), error("NO DATA"));
    assert_eq!(transaction.exec(bpop("q"), &mut table), None);
    assert_eq!(other.exec(push("q", "v"), &mut table), data("SUCCESS"));
    assert_eq!(transaction.exec(bpop("q"), &mut table), data("v"));
}

#[test]
fn a_blocking_pop_inside_a_transaction_is_undone_by_abort() {
    let mut table = QueueTable::new();
    fill(&mut table, "q", &["a", "b"]);
    let mut transaction = Transaction::new();
    assert_eq!(transaction.exec(Command::Begin, &mut table), Some(CommandResult::Success));
    assert_eq!(transaction.exec(bpop("empty"), &mut table), None);
    assert_eq!(transaction.exec(bpop("q"), &mut table), data("a"));
    assert_eq!(transaction.exec(Command::Abort, &mut table), Some(CommandResult::Success));
    assert_eq!(drain(&mut table, "q"), vec!["b".to_string(), "a".to_string()]);
    assert_eq!(drain(&mut table, "empty"), Vec::<String>::new());
}

#[test]
fn rollback_outside_a_transaction_changes_nothing() {
    let mut table = QueueTable::new();
    fill(&mut table, "q", &["a"]);
    let mut transaction = Transaction::new();
    transaction.rollback(&mut table);
    assert_eq!(drain(&mut table, "q"), vec!["a".to_string()]);
}

#[test]
fn rollback_ends_the_transaction() {
    let mut table = QueueTable::new();
    fill(&mut table, "q", &["a"]);
    let mut transaction = Transaction::new();
    assert_eq!(transaction.exec(Command::Begin, &mut table), Some(CommandResult::Success));
    assert_eq!(transaction.exec(pop("q"), &mut table), data("a"));
    assert_eq!(transaction.exec(push("q", "v"), &mut table), Some(CommandResult::Success));
    transaction.rollback(&mut table);
    assert_eq!(transaction.exec(Command::Commit, &mut table), error("Not in transaction"));
    assert_eq!(drain(&mut table, "q"), vec!["a".to_string()]);
}

#[test]
fn results_are_written_with_an_end_of_line() {
    let mut out = b"> ".to_vec();
    CommandResult::Success.write(&mut out);
    assert_eq!(out, b"> ".to_vec());
    CommandResult::Data("hello".to_string()).write(&mut out);
    assert_eq!(out, b"> hello\r\n".to_vec());
    CommandResult::Error("NO DATA".to_string()).write(&mut out);
    assert_eq!(out, b"> hello\r\nNO DATA\r\n".to_vec());
    CommandResult::Disconnect.write(&mut out);
    assert_eq!(out, b"> hello\r\nNO DATA\r\nBye Bye\r\n".to_vec());
}

#[test]
fn data_outside_ascii_is_written_as_utf8() {
    let mut out = Vec::new();
    CommandResult::Data("\u{e9}".to_string()).write(&mut out);
    assert_eq!(out, vec![0xc3, 0xa9, 0x0d, 0x0a]);
}

#[test]
fn only_disconnect_ends_the_session() {
    assert_eq!(CommandResult::Success.command_result(), TransactionResult::Continue);
    assert_eq!(CommandResult::Data("x".to_string()).command_result(), TransactionResult::Continue);
    assert_eq!(CommandResult::Error("x".to_string()).command_result(), TransactionResult::Continue);
    assert_eq!(CommandResult::Disconnect.command_result(), TransactionResult::Quit);
}

#[test]
fn is_quit_holds_of_quit_alone() {
    assert!(TransactionResult::Quit.is_quit());
    assert!(!TransactionResult::Continue.is_quit());
    assert!(!TransactionResult::Wait.is_quit());
}
