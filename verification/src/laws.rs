//! What holds of every run of commands, proved from the definitions of the
//! commands' meaning.

use crate::commands::{CommandView, UncommittedView};
use crate::queue_table::{contents, created, popped, pushed, TableModel};
use crate::transaction::{committed, rolled_back, spec_exec, CommandResultView};
use vstd::prelude::*;

verus! {

/// Where a run of commands ends, and what each command gave back.
pub struct Trace {
    pub journal: Seq<UncommittedView>,
    pub table: TableModel,
    pub results: Seq<Option<CommandResultView>>,
}

/// The commands of one connection, run one after the other.
pub open spec fn run(
    journal: Seq<UncommittedView>,
    table: TableModel,
    cmds: Seq<CommandView>,
) -> Trace
    decreases cmds.len(),
{
    if cmds.len() == 0 {
        Trace { journal, table, results: Seq::empty() }
    } else {
        let first = spec_exec(journal, table, cmds[0]);
        let rest = run(first.journal, first.table, cmds.drop_first());
        Trace {
            journal: rest.journal,
            table: rest.table,
            results: seq![first.result] + rest.results,
        }
    }
}

/// One push to `queue_name` for each of `values`, in order.
pub open spec fn pushes(queue_name: Seq<char>, values: Seq<Seq<char>>) -> Seq<CommandView> {
    Seq::new(values.len(), |i: int| CommandView::Push(values[i], queue_name))
}

/// `count` pops from `queue_name`.
pub open spec fn pops(queue_name: Seq<char>, count: nat) -> Seq<CommandView> {
    Seq::new(count, |i: int| CommandView::Pop(queue_name))
}

/// A run of two sequences of commands is the run of the second from where
/// the first ended.
pub proof fn lemma_run_concat(
    journal: Seq<UncommittedView>,
    table: TableModel,
    first: Seq<CommandView>,
    second: Seq<CommandView>,
)
    ensures
        ({
            let a = run(journal, table, first);
            let b = run(a.journal, a.table, second);
            let all = run(journal, table, first + second);
            all.journal == b.journal && all.table == b.table && all.results == a.results
                + b.results
        }),
    decreases first.len(),
{
    if first.len() == 0 {
        assert(first + second =~= second);
        let b = run(journal, table, second);
        assert(Seq::<Option<CommandResultView>>::empty() + b.results =~= b.results);
    } else {
        let step = spec_exec(journal, table, first[0]);
        assert((first + second)[0] == first[0]);
        assert((first + second).drop_first() =~= first.drop_first() + second);
        lemma_run_concat(step.journal, step.table, first.drop_first(), second);
        let a = run(journal, table, first);
        let a1 = run(step.journal, step.table, first.drop_first());
        let b = run(a.journal, a.table, second);
        assert(seq![step.result] + (a1.results + b.results) =~= (seq![step.result] + a1.results)
            + b.results);
    }
}

/// Pushes outside a transaction append their values to the queue in order,
/// and each is answered with SUCCESS.
pub proof fn lemma_run_pushes(table: TableModel, queue_name: Seq<char>, values: Seq<Seq<char>>)
    ensures
        ({
            let end = run(Seq::empty(), table, pushes(queue_name, values));
            &&& end.journal == Seq::<UncommittedView>::empty()
            &&& values.len() > 0 ==> end.table == table.insert(
                queue_name,
                contents(table, queue_name) + values,
            )
            &&& values.len() == 0 ==> end.table == table
            &&& end.results == Seq::new(
                values.len(),
                |i: int| Some(CommandResultView::Data("SUCCESS"@)),
            )
        }),
    decreases values.len(),
{
    let cmds = pushes(queue_name, values);
    let end = run(Seq::empty(), table, cmds);
    let expected = Seq::new(values.len(), |i: int| Some(CommandResultView::Data("SUCCESS"@)));
    if values.len() == 0 {
        assert(end.results =~= expected);
    } else {
        let next = pushed(table, queue_name, values[0]);
        let rest = values.drop_first();
        assert(cmds.drop_first() =~= pushes(queue_name, rest));
        lemma_run_pushes(next, queue_name, rest);
        assert(contents(next, queue_name) + rest =~= contents(table, queue_name) + values);
        assert(next.insert(queue_name, contents(next, queue_name) + rest) =~= table.insert(
            queue_name,
            contents(table, queue_name) + values,
        ));
        if rest.len() == 0 {
            assert(contents(table, queue_name).push(values[0]) =~= contents(table, queue_name)
                + values);
        }
        assert(end.results =~= expected);
    }
}

/// Pops outside a transaction, no more of them than the queue holds, give
/// the queue's payloads from the head on and leave the others.
pub proof fn lemma_run_pops(table: TableModel, queue_name: Seq<char>, count: nat)
    requires
        count <= contents(table, queue_name).len(),
    ensures
        ({
            let end = run(Seq::empty(), table, pops(queue_name, count));
            &&& end.journal == Seq::<UncommittedView>::empty()
            &&& count > 0 ==> end.table == table.insert(
                queue_name,
                contents(table, queue_name).skip(count as int),
            )
            &&& count == 0 ==> end.table == table
            &&& end.results == Seq::new(
                count,
                |i: int| Some(CommandResultView::Data(contents(table, queue_name)[i])),
            )
        }),
    decreases count,
{
    let cmds = pops(queue_name, count);
    let end = run(Seq::empty(), table, cmds);
    let held = contents(table, queue_name);
    let expected = Seq::new(count, |i: int| Some(CommandResultView::Data(held[i])));
    if count == 0 {
        assert(end.results =~= expected);
    } else {
        let next = popped(table, queue_name);
        let fewer = (count - 1) as nat;
        assert(cmds.drop_first() =~= pops(queue_name, fewer));
        lemma_run_pops(next, queue_name, fewer);
        assert(contents(next, queue_name) == held.drop_first());
        assert(held.drop_first().skip(fewer as int) =~= held.skip(count as int));
        assert(next.insert(queue_name, held.drop_first().skip(fewer as int)) =~= table.insert(
            queue_name,
            held.skip(count as int),
        ));
        if fewer == 0 {
            assert(held.drop_first() =~= held.skip(1));
        }
        assert(end.results =~= expected);
    }
}

/// First in, first out: after any number of pushes to a queue, as many pops
/// return what the queue held before, and then the pushed values, in the
/// order in which they went in. Of a queue that was empty or missing they
/// return exactly the pushed values in order, and leave it empty.
pub proof fn lemma_pushes_then_pops(
    table: TableModel,
    queue_name: Seq<char>,
    values: Seq<Seq<char>>,
)
    ensures
        ({
            let end = run(
                Seq::empty(),
                table,
                pushes(queue_name, values) + pops(queue_name, values.len()),
            );
            let held = contents(table, queue_name);
            &&& end.results.len() == 2 * values.len()
            &&& forall|i: int|
                0 <= i < values.len() ==> #[trigger] end.results[i] == Some(
                    CommandResultView::Data("SUCCESS"@),
                )
            &&& forall|i: int|
                0 <= i < values.len() ==> #[trigger] end.results[values.len() + i] == Some(
                    CommandResultView::Data((held + values)[i]),
                )
            &&& held.len() == 0 ==> forall|i: int|
                0 <= i < values.len() ==> #[trigger] end.results[values.len() + i] == Some(
                    CommandResultView::Data(values[i]),
                )
            &&& contents(end.table, queue_name) == (held + values).skip(values.len() as int)
        }),
{
    let n = values.len();
    let held = contents(table, queue_name);
    let first = pushes(queue_name, values);
    let second = pops(queue_name, n);
    lemma_run_concat(Seq::empty(), table, first, second);
    lemma_run_pushes(table, queue_name, values);
    let middle = run(Seq::empty(), table, first);
    if n > 0 {
        assert(contents(middle.table, queue_name) == held + values);
        lemma_run_pops(middle.table, queue_name, n);
    } else {
        lemma_run_pops(middle.table, queue_name, 0);
        assert(held + values =~= held);
        assert(held.skip(0) =~= held);
    }
}

/// BEGIN, a push and ABORT leave every queue as it was: the push was only
/// ever in the journal, and the journal is dropped.
pub proof fn lemma_aborted_push_changes_nothing(
    table: TableModel,
    queue_name: Seq<char>,
    value: Seq<char>,
)
    ensures
        ({
            let end = run(
                Seq::empty(),
                table,
                seq![CommandView::Begin, CommandView::Push(value, queue_name), CommandView::Abort],
            );
            &&& end.table == table
            &&& end.journal == Seq::<UncommittedView>::empty()
            &&& end.results == seq![
                Some(CommandResultView::Success),
                Some(CommandResultView::Success),
                Some(CommandResultView::Success),
            ]
        }),
{
    let cmds = seq![CommandView::Begin, CommandView::Push(value, queue_name), CommandView::Abort];
    let none = Seq::<UncommittedView>::empty();
    let begun = none.push(UncommittedView::Begin);
    let staged = begun.push(UncommittedView::Push(value, queue_name));
    reveal_with_fuel(run, 4);
    reveal_with_fuel(rolled_back, 3);
    assert(cmds.drop_first() =~= seq![CommandView::Push(value, queue_name), CommandView::Abort]);
    assert(cmds.drop_first().drop_first() =~= seq![CommandView::Abort]);
    assert(cmds.drop_first().drop_first().drop_first() =~= Seq::<CommandView>::empty());
    assert(staged.drop_first() =~= seq![UncommittedView::Push(value, queue_name)]);
    assert(staged.drop_first().drop_first() =~= Seq::<UncommittedView>::empty());
    assert(rolled_back(table, staged) == table);
    let end = run(none, table, cmds);
    assert(end.results =~= seq![
        Some(CommandResultView::Success),
        Some(CommandResultView::Success),
        Some(CommandResultView::Success),
    ]);
}

/// BEGIN, a push and COMMIT put the value once at the tail of its queue,
/// behind what the queue holds at the commit, and change no other queue.
pub proof fn lemma_committed_push_appends(
    table: TableModel,
    queue_name: Seq<char>,
    value: Seq<char>,
)
    ensures
        ({
            let end = run(
                Seq::empty(),
                table,
                seq![CommandView::Begin, CommandView::Push(value, queue_name), CommandView::Commit],
            );
            &&& end.table == table.insert(queue_name, contents(table, queue_name).push(value))
            &&& end.journal == Seq::<UncommittedView>::empty()
            &&& end.results == seq![
                Some(CommandResultView::Success),
                Some(CommandResultView::Success),
                Some(CommandResultView::Success),
            ]
        }),
{
    let cmds = seq![CommandView::Begin, CommandView::Push(value, queue_name), CommandView::Commit];
    let none = Seq::<UncommittedView>::empty();
    let begun = none.push(UncommittedView::Begin);
    let staged = begun.push(UncommittedView::Push(value, queue_name));
    reveal_with_fuel(run, 4);
    reveal_with_fuel(committed, 3);
    assert(cmds.drop_first() =~= seq![CommandView::Push(value, queue_name), CommandView::Commit]);
    assert(cmds.drop_first().drop_first() =~= seq![CommandView::Commit]);
    assert(cmds.drop_first().drop_first().drop_first() =~= Seq::<CommandView>::empty());
    assert(staged.drop_first() =~= seq![UncommittedView::Push(value, queue_name)]);
    assert(staged.drop_first().drop_first() =~= Seq::<UncommittedView>::empty());
    assert(committed(table, staged) == pushed(table, queue_name, value));
    let end = run(none, table, cmds);
    assert(end.results =~= seq![
        Some(CommandResultView::Success),
        Some(CommandResultView::Success),
        Some(CommandResultView::Success),
    ]);
}

/// A push inside a transaction touches no queue: it is answered with
/// success, the table stays as it was, and the journal gains the push as its
/// last entry. So whatever another connection does before the commit, it
/// gets what it would have got without the push.
pub proof fn lemma_staged_push_is_hidden(
    journal: Seq<UncommittedView>,
    table: TableModel,
    queue_name: Seq<char>,
    value: Seq<char>,
    other_journal: Seq<UncommittedView>,
    other_cmd: CommandView,
)
    requires
        journal.len() > 0,
    ensures
        ({
            let staged = spec_exec(journal, table, CommandView::Push(value, queue_name));
            &&& staged.result == Some(CommandResultView::Success)
            &&& staged.table == table
            &&& staged.journal == journal.push(UncommittedView::Push(value, queue_name))
            &&& spec_exec(other_journal, staged.table, other_cmd) == spec_exec(
                other_journal,
                table,
                other_cmd,
            )
        }),
{
}

/// The commit of a transaction that staged one push puts the value at the
/// tail of its queue, behind what the queue holds then: the value is the
/// last element, it occurs once more than before, and the journal is empty
/// afterwards.
pub proof fn lemma_commit_applies_one_push(
    table: TableModel,
    queue_name: Seq<char>,
    value: Seq<char>,
)
    ensures
        ({
            let journal = seq![UncommittedView::Begin, UncommittedView::Push(value, queue_name)];
            let held = contents(table, queue_name);
            let end = spec_exec(journal, table, CommandView::Commit);
            &&& end.result == Some(CommandResultView::Success)
            &&& end.journal == Seq::<UncommittedView>::empty()
            &&& end.table == committed(table, journal)
            &&& end.table == table.insert(queue_name, held.push(value))
            &&& contents(end.table, queue_name).last() == value
            &&& contents(end.table, queue_name).to_multiset().count(value)
                == held.to_multiset().count(value) + 1
        }),
{
    let journal = seq![UncommittedView::Begin, UncommittedView::Push(value, queue_name)];
    let held = contents(table, queue_name);
    reveal_with_fuel(committed, 3);
    assert(journal.drop_first() =~= seq![UncommittedView::Push(value, queue_name)]);
    assert(journal.drop_first().drop_first() =~= Seq::<UncommittedView>::empty());
    assert(committed(table, journal) == pushed(table, queue_name, value));
    vstd::seq_lib::to_multiset_build(held, value);
}

/// BEGIN, a pop and ABORT move the head of the queue to its tail: the pop
/// returns the head, and the rollback appends it again. So `[a, b, c]`
/// becomes `[b, c, a]`.
pub proof fn lemma_aborted_pop_moves_head_to_tail(table: TableModel, queue_name: Seq<char>)
    requires
        contents(table, queue_name).len() > 0,
    ensures
        ({
            let held = contents(table, queue_name);
            let end = run(
                Seq::empty(),
                table,
                seq![CommandView::Begin, CommandView::Pop(queue_name), CommandView::Abort],
            );
            &&& end.table == table.insert(queue_name, held.drop_first().push(held[0]))
            &&& end.journal == Seq::<UncommittedView>::empty()
            &&& end.results == seq![
                Some(CommandResultView::Success),
                Some(CommandResultView::Data(held[0])),
                Some(CommandResultView::Success),
            ]
        }),
{
    let held = contents(table, queue_name);
    let cmds = seq![CommandView::Begin, CommandView::Pop(queue_name), CommandView::Abort];
    let none = Seq::<UncommittedView>::empty();
    let begun = none.push(UncommittedView::Begin);
    let staged = begun.push(UncommittedView::Pop(held[0], queue_name));
    let taken = popped(table, queue_name);
    reveal_with_fuel(run, 4);
    reveal_with_fuel(rolled_back, 3);
    assert(cmds.drop_first() =~= seq![CommandView::Pop(queue_name), CommandView::Abort]);
    assert(cmds.drop_first().drop_first() =~= seq![CommandView::Abort]);
    assert(cmds.drop_first().drop_first().drop_first() =~= Seq::<CommandView>::empty());
    assert(staged.drop_first() =~= seq![UncommittedView::Pop(held[0], queue_name)]);
    assert(staged.drop_first().drop_first() =~= Seq::<UncommittedView>::empty());
    assert(rolled_back(taken, staged) == pushed(taken, queue_name, held[0]));
    assert(pushed(taken, queue_name, held[0]) =~= table.insert(
        queue_name,
        held.drop_first().push(held[0]),
    ));
    let end = run(none, table, cmds);
    assert(end.results =~= seq![
        Some(CommandResultView::Success),
        Some(CommandResultView::Data(held[0])),
        Some(CommandResultView::Success),
    ]);
}

/// Looking a queue up with creation is idempotent: the second lookup finds
/// the queue of the first and changes nothing. What was pushed through the
/// first is what the second holds: of a queue that was empty or missing, the
/// pushed value is its head.
pub proof fn lemma_get_or_create_idempotent(
    table: TableModel,
    queue_name: Seq<char>,
    value: Seq<char>,
)
    ensures
        created(created(table, queue_name), queue_name) == created(table, queue_name),
        contents(created(table, queue_name), queue_name) == contents(table, queue_name),
        ({
            let first = created(table, queue_name);
            let written = first.insert(queue_name, first[queue_name].push(value));
            let second = created(written, queue_name);
            &&& second == written
            &&& second[queue_name] == contents(table, queue_name).push(value)
            &&& contents(table, queue_name).len() == 0 ==> second[queue_name][0] == value
        }),
        forall|other: Seq<char>|
            other != queue_name ==> (#[trigger] created(table, queue_name).contains_key(other)
                <==> table.contains_key(other)),
        forall|other: Seq<char>|
            other != queue_name && table.contains_key(other) ==> #[trigger] created(
                table,
                queue_name,
            )[other] == table[other],
{
    let first = created(table, queue_name);
    assert(created(first, queue_name) =~= first);
    let written = first.insert(queue_name, first[queue_name].push(value));
    assert(created(written, queue_name) =~= written);
}

// ---------------------------------------------------------------------------
// Several connections on one table
// ---------------------------------------------------------------------------

/// The journal of each connection that has one; a connection without an
/// entry is in no transaction.
pub type Journals = Map<int, Seq<UncommittedView>>;

pub open spec fn journal_of(journals: Journals, client: int) -> Seq<UncommittedView> {
    if journals.contains_key(client) {
        journals[client]
    } else {
        Seq::empty()
    }
}

/// Where the commands of several connections end, and what each gave back.
pub struct SharedTrace {
    pub journals: Journals,
    pub table: TableModel,
    pub results: Seq<Option<CommandResultView>>,
}

/// The commands of several connections in the order in which the table
/// served them; each step names the connection and its command.
pub open spec fn run_shared(
    journals: Journals,
    table: TableModel,
    steps: Seq<(int, CommandView)>,
) -> SharedTrace
    decreases steps.len(),
{
    if steps.len() == 0 {
        SharedTrace { journals, table, results: Seq::empty() }
    } else {
        let client = steps[0].0;
        let first = spec_exec(journal_of(journals, client), table, steps[0].1);
        let rest = run_shared(
            journals.insert(client, first.journal),
            first.table,
            steps.drop_first(),
        );
        SharedTrace {
            journals: rest.journals,
            table: rest.table,
            results: seq![first.result] + rest.results,
        }
    }
}

/// The values that the steps push, in order.
pub open spec fn pushed_values(steps: Seq<(int, CommandView)>) -> Seq<Seq<char>>
    decreases steps.len(),
{
    if steps.len() == 0 {
        Seq::empty()
    } else {
        let first = match steps[0].1 {
            CommandView::Push(value, _) => seq![value],
            _ => Seq::empty(),
        };
        first + pushed_values(steps.drop_first())
    }
}

/// The values that the pops among the steps returned, in order.
pub open spec fn popped_values(
    steps: Seq<(int, CommandView)>,
    results: Seq<Option<CommandResultView>>,
) -> Seq<Seq<char>>
    decreases steps.len(),
{
    if steps.len() == 0 || results.len() == 0 {
        Seq::empty()
    } else {
        let first = match (steps[0].1, results[0]) {
            (CommandView::Pop(_), Some(CommandResultView::Data(data))) => seq![data],
            _ => Seq::empty(),
        };
        first + popped_values(steps.drop_first(), results.drop_first())
    }
}

/// Every step pushes to `queue_name` or pops from it.
pub open spec fn only_pushes_and_pops(
    steps: Seq<(int, CommandView)>,
    queue_name: Seq<char>,
) -> bool {
    forall|i: int|
        0 <= i < steps.len() ==> match (#[trigger] steps[i]).1 {
            CommandView::Push(_, name) => name == queue_name,
            CommandView::Pop(name) => name == queue_name,
            _ => false,
        }
}

/// No connection is in a transaction.
pub open spec fn no_transactions(journals: Journals) -> bool {
    forall|client: int| #[trigger] journal_of(journals, client).len() == 0
}

/// However the pushes and pops of several connections on one queue are
/// interleaved, with no transaction open: what the pops returned, followed
/// by what the queue holds at the end, is what the queue held at first
/// followed by what was pushed, value for value and in the same order. So
/// the `k`-th value that comes out is the `k`-th that went in, the values of
/// one connection come out in the order in which it pushed them, and nothing
/// is lost or doubled: the multisets are the same.
pub proof fn lemma_interleaved_pushes_and_pops(
    journals: Journals,
    table: TableModel,
    queue_name: Seq<char>,
    steps: Seq<(int, CommandView)>,
)
    requires
        no_transactions(journals),
        only_pushes_and_pops(steps, queue_name),
    ensures
        ({
            let end = run_shared(journals, table, steps);
            let went_in = contents(table, queue_name) + pushed_values(steps);
            let came_out = popped_values(steps, end.results);
            let left = contents(end.table, queue_name);
            &&& no_transactions(end.journals)
            &&& came_out + left == went_in
            &&& forall|k: int| 0 <= k < came_out.len() ==> #[trigger] came_out[k] == went_in[k]
            &&& came_out.to_multiset().add(left.to_multiset()) == went_in.to_multiset()
            &&& contents(table, queue_name).len() == 0 && left.len() == 0
                ==> came_out.to_multiset() == pushed_values(steps).to_multiset()
        }),
    decreases steps.len(),
{
    let end = run_shared(journals, table, steps);
    let held = contents(table, queue_name);
    let went_in = held + pushed_values(steps);
    let came_out = popped_values(steps, end.results);
    let left = contents(end.table, queue_name);
    if steps.len() == 0 {
        assert(came_out + left =~= went_in);
    } else {
        let client = steps[0].0;
        assert(journal_of(journals, client).len() == 0);
        let first = spec_exec(journal_of(journals, client), table, steps[0].1);
        let next_journals = journals.insert(client, first.journal);
        let rest = steps.drop_first();
        assert(no_transactions(next_journals)) by {
            assert forall|c: int| #[trigger] journal_of(next_journals, c).len() == 0 by {
                assert(journal_of(journals, c).len() == 0);
            }
        }
        assert(only_pushes_and_pops(rest, queue_name)) by {
            assert forall|i: int| 0 <= i < rest.len() implies match (#[trigger] rest[i]).1 {
                CommandView::Push(_, name) => name == queue_name,
                CommandView::Pop(name) => name == queue_name,
                _ => false,
            } by {
                assert(rest[i] == steps[i + 1]);
            }
        }
        lemma_interleaved_pushes_and_pops(next_journals, first.table, queue_name, rest);
        let tail = run_shared(next_journals, first.table, rest);
        assert(end.results.drop_first() =~= tail.results);
        assert(end.results[0] == first.result);
        let tail_out = popped_values(rest, tail.results);
        let now = contents(first.table, queue_name);
        assert(tail_out + left == now + pushed_values(rest));
        match steps[0].1 {
            CommandView::Push(value, _) => {
                assert(now == held.push(value));
                assert(came_out =~= tail_out);
                assert(held.push(value) + pushed_values(rest) =~= held + (seq![value]
                    + pushed_values(rest)));
            },
            CommandView::Pop(_) => {
                if held.len() > 0 {
                    assert(now == held.drop_first());
                    assert(came_out =~= seq![held[0]] + tail_out);
                    assert((seq![held[0]] + tail_out) + left =~= seq![held[0]] + (tail_out
                        + left));
                    assert(seq![held[0]] + (held.drop_first() + pushed_values(rest)) =~= held
                        + pushed_values(rest));
                    assert(pushed_values(steps) =~= pushed_values(rest));
                } else {
                    assert(now =~= held);
                    assert(came_out =~= tail_out);
                    assert(pushed_values(steps) =~= pushed_values(rest));
                }
            },
            _ => {},
        }
        assert(came_out + left =~= went_in);
    }
    vstd::seq_lib::lemma_multiset_commutative(came_out, left);
    if held.len() == 0 && left.len() == 0 {
        assert(came_out + left =~= came_out);
        assert(went_in =~= pushed_values(steps));
    }
}

} // verus!
