//! What holds of the decoder, the wake-state table and the classifier
//! together.

use vstd::prelude::*;
use crate::graph::decimal::{is_digit, parse_u32, without_plus};
use crate::graph::events::{
    decode_migrate, migration_state, decode_move_numa, decode_process_exec, decode_process_exit,
    decode_process_fork, decode_process_free, decode_process_wait, decode_stick_numa,
    decode_swap_numa, decode_switch, decode_wake_idle, decode_wakeup, decode_wakeup_new,
    decode_waking, keeping,
};
use crate::graph::parser::{
    command_and_pid, decode_event, decode_line, lemma_first_split_is, line_header, spaced,
    trial_split, EventsView, TraceError, Wstate,
};
use crate::graph::text::{
    is_bracket, is_word, lemma_split_whitespace_spaced, spaced_line, split_whitespace,
    without_brackets, without_last,
};
use crate::graph::{load_balancing, migration_cause, unblock_placement, MigrationCause};
use crate::read_config::Machine;

verus! {

/// What an event does to the wake-state table when it is decoded on the
/// CPU `cpu`. The latest event of a task overwrites what was there.
///
/// A waking task is being woken from this CPU to its target. A woken task,
/// new or not, is woken. A forked child is being woken on this CPU. The
/// tasks of a NUMA swap are each pending a move to the CPU of the other,
/// and the task of a NUMA move is pending that move. No other event
/// touches the table.
pub open spec fn wake_effect(event: EventsView, cpu: u32, table: Map<u32, Wstate>) -> Map<
    u32,
    Wstate,
> {
    match event {
        EventsView::SchedWaking { pid, target_cpu, .. } => table.insert(
            pid,
            Wstate::Waking(cpu, target_cpu),
        ),
        EventsView::SchedWakeup { pid, .. } => table.insert(pid, Wstate::Woken),
        EventsView::SchedWakeupNew { pid, .. } => table.insert(pid, Wstate::Woken),
        EventsView::SchedProcessFork { child_pid, .. } => table.insert(
            child_pid,
            Wstate::Waking(cpu, cpu),
        ),
        EventsView::SchedSwapNuma { src_pid, src_cpu, dst_pid, dst_cpu } => table.insert(
            src_pid,
            Wstate::Numa(src_cpu, dst_cpu),
        ).insert(dst_pid, Wstate::Numa(dst_cpu, src_cpu)),
        EventsView::SchedMoveNuma { src_pid, src_cpu, dst_cpu } => table.insert(
            src_pid,
            Wstate::Numa(src_cpu, dst_cpu),
        ),
        _ => table,
    }
}

/// The task whose entry of the wake-state table an event reads when it is
/// decoded; `None` for an event that reads none.
pub open spec fn task_read(event: EventsView) -> Option<u32> {
    match event {
        EventsView::SchedWakeup { pid, .. } => Some(pid),
        EventsView::SchedWakeupNew { pid, .. } => Some(pid),
        EventsView::SchedMigrateTask { pid, .. } => Some(pid),
        _ => None,
    }
}

/// Whether two tables say the same of the task `pid`.
pub open spec fn agree_on(a: Map<u32, Wstate>, b: Map<u32, Wstate>, pid: u32) -> bool {
    a.contains_key(pid) == b.contains_key(pid) && (a.contains_key(pid) ==> a[pid] == b[pid])
}

/// The table after a waking is the table before it with the effect of the
/// event.
proof fn lemma_effect_of_waking(
    tokens: Seq<Seq<char>>,
    cpu: u32,
    table: Map<u32, Wstate>,
    index: int,
)
    ensures
        decode_waking(tokens, cpu, table, index) matches Ok((event, after)) ==> after
            == wake_effect(event, cpu, table),
{
}

/// The table after an idle wake-up is the table before it with the effect
/// of the event.
proof fn lemma_effect_of_wake_idle(
    tokens: Seq<Seq<char>>,
    cpu: u32,
    table: Map<u32, Wstate>,
    index: int,
)
    ensures
        keeping(decode_wake_idle(tokens, index), table) matches Ok((event, after)) ==> after
            == wake_effect(event, cpu, table),
{
}

/// The table after a wake-up is the table before it with the effect of the
/// event.
proof fn lemma_effect_of_wakeup(
    tokens: Seq<Seq<char>>,
    cpu: u32,
    table: Map<u32, Wstate>,
    index: int,
)
    ensures
        decode_wakeup(tokens, table, index) matches Ok((event, after)) ==> after
            == wake_effect(event, cpu, table),
{
}

/// The table after the wake-up of a new task is the table before it with
/// the effect of the event.
proof fn lemma_effect_of_wakeup_new(
    tokens: Seq<Seq<char>>,
    cpu: u32,
    table: Map<u32, Wstate>,
    index: int,
)
    ensures
        decode_wakeup_new(tokens, table, index) matches Ok((event, after)) ==> after
            == wake_effect(event, cpu, table),
{
}

/// The table after a migration is the table before it with the effect of
/// the event.
proof fn lemma_effect_of_migrate(
    tokens: Seq<Seq<char>>,
    cpu: u32,
    table: Map<u32, Wstate>,
    index: int,
)
    ensures
        keeping(decode_migrate(tokens, table, index), table) matches Ok((event, after)) ==> after
            == wake_effect(event, cpu, table),
{
}

/// The table after a switch is the table before it with the effect of the
/// event.
proof fn lemma_effect_of_switch(
    tokens: Seq<Seq<char>>,
    cpu: u32,
    table: Map<u32, Wstate>,
    index: int,
)
    ensures
        keeping(decode_switch(tokens, index), table) matches Ok((event, after)) ==> after
            == wake_effect(event, cpu, table),
{
}

/// The table after the freeing of a process is the table before it with the
/// effect of the event.
proof fn lemma_effect_of_process_free(
    tokens: Seq<Seq<char>>,
    cpu: u32,
    table: Map<u32, Wstate>,
    index: int,
)
    ensures
        keeping(decode_process_free(tokens, index), table) matches Ok((event, after)) ==> after
            == wake_effect(event, cpu, table),
{
}

/// The table after an exec is the table before it with the effect of the
/// event.
proof fn lemma_effect_of_process_exec(
    tokens: Seq<Seq<char>>,
    cpu: u32,
    table: Map<u32, Wstate>,
    index: int,
)
    ensures
        keeping(decode_process_exec(tokens, index), table) matches Ok((event, after)) ==> after
            == wake_effect(event, cpu, table),
{
}

/// The table after a fork is the table before it with the effect of the
/// event.
proof fn lemma_effect_of_process_fork(
    tokens: Seq<Seq<char>>,
    cpu: u32,
    table: Map<u32, Wstate>,
    index: int,
)
    ensures
        decode_process_fork(tokens, cpu, table, index) matches Ok((event, after)) ==> after
            == wake_effect(event, cpu, table),
{
}

/// The table after a wait is the table before it with the effect of the
/// event.
proof fn lemma_effect_of_process_wait(
    tokens: Seq<Seq<char>>,
    cpu: u32,
    table: Map<u32, Wstate>,
    index: int,
)
    ensures
        keeping(decode_process_wait(tokens, index), table) matches Ok((event, after)) ==> after
            == wake_effect(event, cpu, table),
{
}

/// The table after an exit is the table before it with the effect of the
/// event.
proof fn lemma_effect_of_process_exit(
    tokens: Seq<Seq<char>>,
    cpu: u32,
    table: Map<u32, Wstate>,
    index: int,
)
    ensures
        keeping(decode_process_exit(tokens, index), table) matches Ok((event, after)) ==> after
            == wake_effect(event, cpu, table),
{
}

/// The table after a NUMA swap is the table before it with the effect of
/// the event.
proof fn lemma_effect_of_swap_numa(
    tokens: Seq<Seq<char>>,
    cpu: u32,
    table: Map<u32, Wstate>,
    index: int,
)
    ensures
        decode_swap_numa(tokens, table, index) matches Ok((event, after)) ==> after
            == wake_effect(event, cpu, table),
{
}

/// The table after a NUMA stick is the table before it with the effect of
/// the event.
proof fn lemma_effect_of_stick_numa(
    tokens: Seq<Seq<char>>,
    cpu: u32,
    table: Map<u32, Wstate>,
    index: int,
)
    ensures
        keeping(decode_stick_numa(tokens, index), table) matches Ok((event, after)) ==> after
            == wake_effect(event, cpu, table),
{
}

/// The table after a NUMA move is the table before it with the effect of
/// the event.
proof fn lemma_effect_of_move_numa(
    tokens: Seq<Seq<char>>,
    cpu: u32,
    table: Map<u32, Wstate>,
    index: int,
)
    ensures
        decode_move_numa(tokens, table, index) matches Ok((event, after)) ==> after
            == wake_effect(event, cpu, table),
{
}

/// The table after a decoded event is the table before it with the effect
/// of that event, and of nothing else.
pub proof fn lemma_event_effect(
    tokens: Seq<Seq<char>>,
    cpu: u32,
    table: Map<u32, Wstate>,
    name: Seq<char>,
    index: int,
)
    ensures
        decode_event(tokens, cpu, table, name, index) matches Ok((event, after)) ==> after
            == wake_effect(event, cpu, table),
{
    if name == "sched_waking"@ {
        lemma_effect_of_waking(tokens, cpu, table, index);
    } else if name == "sched_wake_idle_without_ipi"@ {
        lemma_effect_of_wake_idle(tokens, cpu, table, index);
    } else if name == "sched_wakeup"@ {
        lemma_effect_of_wakeup(tokens, cpu, table, index);
    } else if name == "sched_wakeup_new"@ {
        lemma_effect_of_wakeup_new(tokens, cpu, table, index);
    } else if name == "sched_migrate_task"@ {
        lemma_effect_of_migrate(tokens, cpu, table, index);
    } else if name == "sched_switch"@ {
        lemma_effect_of_switch(tokens, cpu, table, index);
    } else if name == "sched_process_free"@ {
        lemma_effect_of_process_free(tokens, cpu, table, index);
    } else if name == "sched_process_exec"@ {
        lemma_effect_of_process_exec(tokens, cpu, table, index);
    } else if name == "sched_process_fork"@ {
        lemma_effect_of_process_fork(tokens, cpu, table, index);
    } else if name == "sched_process_wait"@ {
        lemma_effect_of_process_wait(tokens, cpu, table, index);
    } else if name == "sched_process_exit"@ {
        lemma_effect_of_process_exit(tokens, cpu, table, index);
    } else if name == "sched_swap_numa"@ {
        lemma_effect_of_swap_numa(tokens, cpu, table, index);
    } else if name == "sched_stick_numa"@ {
        lemma_effect_of_stick_numa(tokens, cpu, table, index);
    } else if name == "sched_move_numa"@ {
        lemma_effect_of_move_numa(tokens, cpu, table, index);
    }
}

/// The table after a decoded line is the table before it with the effect
/// of the line's event on the line's CPU.
pub proof fn lemma_line_effect(tokens: Seq<Seq<char>>, table: Map<u32, Wstate>)
    ensures
        decode_line(tokens, table) matches Ok((action, after)) ==> after == wake_effect(
            action.event,
            action.cpu,
            table,
        ),
{
    match line_header(tokens) {
        Ok((process, pid, cpu, k)) => {
            if 0 <= k && k + 3 < tokens.len() {
                lemma_event_effect(tokens, cpu, table, without_last(tokens[k + 3]), k + 4);
            }
        },
        Err(_) => {},
    }
}

/// Decoding is a function of the line and the table: two tables with the
/// same entries give the same action, the same table after it, and the
/// same error.
pub proof fn lemma_decode_twice(
    tokens: Seq<Seq<char>>,
    first: Map<u32, Wstate>,
    second: Map<u32, Wstate>,
)
    requires
        first =~= second,
    ensures
        decode_line(tokens, first) == decode_line(tokens, second),
{
}

/// The event of a waking is the same on two tables that agree on the task
/// that it reads.
proof fn lemma_entry_of_waking(
    tokens: Seq<Seq<char>>,
    cpu: u32,
    first: Map<u32, Wstate>,
    second: Map<u32, Wstate>,
    index: int,
)
    requires
        decode_waking(tokens, cpu, first, index) matches Ok((event, _)) && (task_read(
            event,
        ) matches Some(pid) ==> agree_on(first, second, pid)),
    ensures
        decode_waking(tokens, cpu, second, index) matches Ok((event, _)) && event
            == decode_waking(tokens, cpu, first, index)->Ok_0.0,
{
}

/// The event of an idle wake-up is the same on two tables that agree on the
/// task that it reads.
proof fn lemma_entry_of_wake_idle(
    tokens: Seq<Seq<char>>,
    cpu: u32,
    first: Map<u32, Wstate>,
    second: Map<u32, Wstate>,
    index: int,
)
    requires
        keeping(decode_wake_idle(tokens, index), first) matches Ok((event, _)) && (task_read(
            event,
        ) matches Some(pid) ==> agree_on(first, second, pid)),
    ensures
        keeping(decode_wake_idle(tokens, index), second) matches Ok((event, _)) && event
            == keeping(decode_wake_idle(tokens, index), first)->Ok_0.0,
{
}

/// The event of a wake-up is the same on two tables that agree on the task
/// that it reads.
proof fn lemma_entry_of_wakeup(
    tokens: Seq<Seq<char>>,
    cpu: u32,
    first: Map<u32, Wstate>,
    second: Map<u32, Wstate>,
    index: int,
)
    requires
        decode_wakeup(tokens, first, index) matches Ok((event, _)) && (task_read(
            event,
        ) matches Some(pid) ==> agree_on(first, second, pid)),
    ensures
        decode_wakeup(tokens, second, index) matches Ok((event, _)) && event
            == decode_wakeup(tokens, first, index)->Ok_0.0,
{
}

/// The event of the wake-up of a new task is the same on two tables that
/// agree on the task that it reads.
proof fn lemma_entry_of_wakeup_new(
    tokens: Seq<Seq<char>>,
    cpu: u32,
    first: Map<u32, Wstate>,
    second: Map<u32, Wstate>,
    index: int,
)
    requires
        decode_wakeup_new(tokens, first, index) matches Ok((event, _)) && (task_read(
            event,
        ) matches Some(pid) ==> agree_on(first, second, pid)),
    ensures
        decode_wakeup_new(tokens, second, index) matches Ok((event, _)) && event
            == decode_wakeup_new(tokens, first, index)->Ok_0.0,
{
}

/// The event of a migration is the same on two tables that agree on the
/// task that it reads.
proof fn lemma_entry_of_migrate(
    tokens: Seq<Seq<char>>,
    cpu: u32,
    first: Map<u32, Wstate>,
    second: Map<u32, Wstate>,
    index: int,
)
    requires
        keeping(decode_migrate(tokens, first, index), first) matches Ok((event, _)) && (task_read(
            event,
        ) matches Some(pid) ==> agree_on(first, second, pid)),
    ensures
        keeping(decode_migrate(tokens, second, index), second) matches Ok((event, _)) && event
            == keeping(decode_migrate(tokens, first, index), first)->Ok_0.0,
{
}

/// The event of a switch is the same on two tables that agree on the task
/// that it reads.
proof fn lemma_entry_of_switch(
    tokens: Seq<Seq<char>>,
    cpu: u32,
    first: Map<u32, Wstate>,
    second: Map<u32, Wstate>,
    index: int,
)
    requires
        keeping(decode_switch(tokens, index), first) matches Ok((event, _)) && (task_read(
            event,
        ) matches Some(pid) ==> agree_on(first, second, pid)),
    ensures
        keeping(decode_switch(tokens, index), second) matches Ok((event, _)) && event
            == keeping(decode_switch(tokens, index), first)->Ok_0.0,
{
}

/// The event of the freeing of a process is the same on two tables that
/// agree on the task that it reads.
proof fn lemma_entry_of_process_free(
    tokens: Seq<Seq<char>>,
    cpu: u32,
    first: Map<u32, Wstate>,
    second: Map<u32, Wstate>,
    index: int,
)
    requires
        keeping(decode_process_free(tokens, index), first) matches Ok((event, _)) && (task_read(
            event,
        ) matches Some(pid) ==> agree_on(first, second, pid)),
    ensures
        keeping(decode_process_free(tokens, index), second) matches Ok((event, _)) && event
            == keeping(decode_process_free(tokens, index), first)->Ok_0.0,
{
}

/// The event of an exec is the same on two tables that agree on the task
/// that it reads.
proof fn lemma_entry_of_process_exec(
    tokens: Seq<Seq<char>>,
    cpu: u32,
    first: Map<u32, Wstate>,
    second: Map<u32, Wstate>,
    index: int,
)
    requires
        keeping(decode_process_exec(tokens, index), first) matches Ok((event, _)) && (task_read(
            event,
        ) matches Some(pid) ==> agree_on(first, second, pid)),
    ensures
        keeping(decode_process_exec(tokens, index), second) matches Ok((event, _)) && event
            == keeping(decode_process_exec(tokens, index), first)->Ok_0.0,
{
}

/// The event of a fork is the same on two tables that agree on the task
/// that it reads.
proof fn lemma_entry_of_process_fork(
    tokens: Seq<Seq<char>>,
    cpu: u32,
    first: Map<u32, Wstate>,
    second: Map<u32, Wstate>,
    index: int,
)
    requires
        decode_process_fork(tokens, cpu, first, index) matches Ok((event, _)) && (task_read(
            event,
        ) matches Some(pid) ==> agree_on(first, second, pid)),
    ensures
        decode_process_fork(tokens, cpu, second, index) matches Ok((event, _)) && event
            == decode_process_fork(tokens, cpu, first, index)->Ok_0.0,
{
}

/// The event of a wait is the same on two tables that agree on the task
/// that it reads.
proof fn lemma_entry_of_process_wait(
    tokens: Seq<Seq<char>>,
    cpu: u32,
    first: Map<u32, Wstate>,
    second: Map<u32, Wstate>,
    index: int,
)
    requires
        keeping(decode_process_wait(tokens, index), first) matches Ok((event, _)) && (task_read(
            event,
        ) matches Some(pid) ==> agree_on(first, second, pid)),
    ensures
        keeping(decode_process_wait(tokens, index), second) matches Ok((event, _)) && event
            == keeping(decode_process_wait(tokens, index), first)->Ok_0.0,
{
}

/// The event of an exit is the same on two tables that agree on the task
/// that it reads.
proof fn lemma_entry_of_process_exit(
    tokens: Seq<Seq<char>>,
    cpu: u32,
    first: Map<u32, Wstate>,
    second: Map<u32, Wstate>,
    index: int,
)
    requires
        keeping(decode_process_exit(tokens, index), first) matches Ok((event, _)) && (task_read(
            event,
        ) matches Some(pid) ==> agree_on(first, second, pid)),
    ensures
        keeping(decode_process_exit(tokens, index), second) matches Ok((event, _)) && event
            == keeping(decode_process_exit(tokens, index), first)->Ok_0.0,
{
}

/// The event of a NUMA swap is the same on two tables that agree on the
/// task that it reads.
proof fn lemma_entry_of_swap_numa(
    tokens: Seq<Seq<char>>,
    cpu: u32,
    first: Map<u32, Wstate>,
    second: Map<u32, Wstate>,
    index: int,
)
    requires
        decode_swap_numa(tokens, first, index) matches Ok((event, _)) && (task_read(
            event,
        ) matches Some(pid) ==> agree_on(first, second, pid)),
    ensures
        decode_swap_numa(tokens, second, index) matches Ok((event, _)) && event
            == decode_swap_numa(tokens, first, index)->Ok_0.0,
{
}

/// The event of a NUMA stick is the same on two tables that agree on the
/// task that it reads.
proof fn lemma_entry_of_stick_numa(
    tokens: Seq<Seq<char>>,
    cpu: u32,
    first: Map<u32, Wstate>,
    second: Map<u32, Wstate>,
    index: int,
)
    requires
        keeping(decode_stick_numa(tokens, index), first) matches Ok((event, _)) && (task_read(
            event,
        ) matches Some(pid) ==> agree_on(first, second, pid)),
    ensures
        keeping(decode_stick_numa(tokens, index), second) matches Ok((event, _)) && event
            == keeping(decode_stick_numa(tokens, index), first)->Ok_0.0,
{
}

/// The event of a NUMA move is the same on two tables that agree on the
/// task that it reads.
proof fn lemma_entry_of_move_numa(
    tokens: Seq<Seq<char>>,
    cpu: u32,
    first: Map<u32, Wstate>,
    second: Map<u32, Wstate>,
    index: int,
)
    requires
        decode_move_numa(tokens, first, index) matches Ok((event, _)) && (task_read(
            event,
        ) matches Some(pid) ==> agree_on(first, second, pid)),
    ensures
        decode_move_numa(tokens, second, index) matches Ok((event, _)) && event
            == decode_move_numa(tokens, first, index)->Ok_0.0,
{
}

/// An event depends on the table through one entry at most: that of the
/// task whose wake-up or migration it reports.
pub proof fn lemma_event_reads_one_entry(
    tokens: Seq<Seq<char>>,
    cpu: u32,
    first: Map<u32, Wstate>,
    second: Map<u32, Wstate>,
    name: Seq<char>,
    index: int,
)
    requires
        decode_event(tokens, cpu, first, name, index) matches Ok((event, _)) && (task_read(
            event,
        ) matches Some(pid) ==> agree_on(first, second, pid)),
    ensures
        decode_event(tokens, cpu, second, name, index) matches Ok((event, _)) && event
            == decode_event(tokens, cpu, first, name, index)->Ok_0.0,
{
    if name == "sched_waking"@ {
        lemma_entry_of_waking(tokens, cpu, first, second, index);
    } else if name == "sched_wake_idle_without_ipi"@ {
        lemma_entry_of_wake_idle(tokens, cpu, first, second, index);
    } else if name == "sched_wakeup"@ {
        lemma_entry_of_wakeup(tokens, cpu, first, second, index);
    } else if name == "sched_wakeup_new"@ {
        lemma_entry_of_wakeup_new(tokens, cpu, first, second, index);
    } else if name == "sched_migrate_task"@ {
        lemma_entry_of_migrate(tokens, cpu, first, second, index);
    } else if name == "sched_switch"@ {
        lemma_entry_of_switch(tokens, cpu, first, second, index);
    } else if name == "sched_process_free"@ {
        lemma_entry_of_process_free(tokens, cpu, first, second, index);
    } else if name == "sched_process_exec"@ {
        lemma_entry_of_process_exec(tokens, cpu, first, second, index);
    } else if name == "sched_process_fork"@ {
        lemma_entry_of_process_fork(tokens, cpu, first, second, index);
    } else if name == "sched_process_wait"@ {
        lemma_entry_of_process_wait(tokens, cpu, first, second, index);
    } else if name == "sched_process_exit"@ {
        lemma_entry_of_process_exit(tokens, cpu, first, second, index);
    } else if name == "sched_swap_numa"@ {
        lemma_entry_of_swap_numa(tokens, cpu, first, second, index);
    } else if name == "sched_stick_numa"@ {
        lemma_entry_of_stick_numa(tokens, cpu, first, second, index);
    } else if name == "sched_move_numa"@ {
        lemma_entry_of_move_numa(tokens, cpu, first, second, index);
    }
}

/// An action depends on the table through one entry at most: that of the
/// task whose wake-up or migration the line reports. Two tables that agree
/// on that task give the same action, however else they differ; a line of
/// any other event gives the same action on every table.
pub proof fn lemma_action_reads_one_entry(
    tokens: Seq<Seq<char>>,
    first: Map<u32, Wstate>,
    second: Map<u32, Wstate>,
)
    requires
        decode_line(tokens, first) matches Ok((action, _)) && (task_read(action.event) matches Some(
            pid,
        ) ==> agree_on(first, second, pid)),
    ensures
        decode_line(tokens, second) matches Ok((action, _)) && action == decode_line(
            tokens,
            first,
        )->Ok_0.0,
{
    match line_header(tokens) {
        Ok((process, pid, cpu, k)) => {
            if 0 <= k && k + 3 < tokens.len() {
                lemma_event_reads_one_entry(
                    tokens,
                    cpu,
                    first,
                    second,
                    without_last(tokens[k + 3]),
                    k + 4,
                );
            }
        },
        Err(_) => {},
    }
}

/// The characters of an unsigned number are digits, but for a `+` in
/// front.
pub proof fn lemma_number_chars(s: Seq<char>, i: int)
    requires
        parse_u32(s).is_some(),
        0 <= i < s.len(),
    ensures
        is_digit(s[i]) || (i == 0 && s[i] == '+'),
{
    let digits = without_plus(s);
    if s[0] == '+' {
        if i > 0 {
            assert(digits[i - 1] == s[i]);
        }
    } else {
        assert(digits[i] == s[i]);
    }
}

/// A token that ends in the separator and a number splits there: before
/// the last separator stands the rest of the token, whatever it holds.
pub proof fn lemma_trial_split_of(base: Seq<char>, sep: char, number: Seq<char>)
    requires
        parse_u32(number).is_some(),
        !is_digit(sep),
        sep != '+',
    ensures
        trial_split(base + seq![sep] + number, sep) == Some((base, parse_u32(number)->Some_0)),
{
    let token = base + seq![sep] + number;
    let at = base.len() as int;
    assert(token[at] == sep);
    token.index_of_last_ensures(sep);
    let found = token.index_of_last(sep)->Some_0;
    if found > at {
        lemma_number_chars(number, found - at - 1);
        assert(token[found] == number[found - at - 1]);
    }
    assert(found == at);
    assert(token.skip(at + 1) =~= number);
    assert(token.take(at) =~= base);
}

/// Text without brackets loses nothing when its brackets are dropped.
pub proof fn lemma_without_brackets_keeps(s: Seq<char>)
    requires
        forall|i: int| 0 <= i < s.len() ==> !is_bracket(#[trigger] s[i]),
    ensures
        without_brackets(s) == s,
    decreases s.len(),
{
    reveal(Seq::filter);
    if s.len() > 0 {
        lemma_without_brackets_keeps(s.drop_last());
        assert(s.drop_last().push(s.last()) =~= s);
    }
}

/// A number in square brackets is that number once the brackets are
/// dropped.
pub proof fn lemma_bracketed_number(number: Seq<char>)
    requires
        parse_u32(number).is_some(),
    ensures
        without_brackets(seq!['['] + number + seq![']']) == number,
{
    let keep = |c: char| !is_bracket(c);
    assert forall|i: int| 0 <= i < number.len() implies !is_bracket(#[trigger] number[i]) by {
        lemma_number_chars(number, i);
    }
    lemma_without_brackets_keeps(number);
    Seq::filter_distributes_over_add(seq!['['] + number, seq![']'], keep);
    Seq::filter_distributes_over_add(seq!['['], number, keep);
    reveal_with_fuel(Seq::filter, 2);
    assert(seq!['['].filter(keep) =~= Seq::<char>::empty()) by {
        assert(seq!['['].drop_last() =~= Seq::<char>::empty());
    }
    assert(seq![']'].filter(keep) =~= Seq::<char>::empty()) by {
        assert(seq![']'].drop_last() =~= Seq::<char>::empty());
    }
    assert(Seq::<char>::empty() + number + Seq::<char>::empty() =~= number);
}

/// The command and the pid come from the first token that splits: the
/// tokens before it belong to the command whole.
pub proof fn lemma_command_and_pid(
    tokens: Seq<Seq<char>>,
    sep: char,
    n: int,
    k: int,
    base: Seq<char>,
    pid: u32,
)
    requires
        0 <= n <= k < tokens.len(),
        forall|j: int| n <= j < k ==> trial_split(#[trigger] tokens[j], sep).is_none(),
        trial_split(tokens[k], sep) == Some((base, pid)),
    ensures
        command_and_pid(tokens, sep, n) == Ok::<(Seq<char>, u32, int), TraceError>(
            (
                spaced(tokens, n, k) + (if k != n {
                    seq![' ']
                } else {
                    Seq::empty()
                }) + base,
                pid,
                k,
            ),
        ),
{
    lemma_first_split_is(tokens, sep, n, k);
}

/// The start of a line gives the pid and the CPU exactly, whatever the
/// command holds.
///
/// The line is `<command>-<pid> [<cpu>] …`, where the command may hold the
/// separator `-` and white space: it spans the tokens up to `k`, and the
/// token at `k` ends in `-` and the pid. No earlier token of the command
/// may itself end in `-` and a number, since the pid is taken from the
/// first token that does.
pub proof fn lemma_line_header(
    tokens: Seq<Seq<char>>,
    k: int,
    base: Seq<char>,
    pid: Seq<char>,
    cpu: Seq<char>,
)
    requires
        0 <= k,
        k + 1 < tokens.len(),
        forall|j: int| 0 <= j < k ==> trial_split(#[trigger] tokens[j], '-').is_none(),
        tokens[k] == base + seq!['-'] + pid,
        tokens[k + 1] == seq!['['] + cpu + seq![']'],
        parse_u32(pid).is_some(),
        parse_u32(cpu).is_some(),
    ensures
        line_header(tokens) == Ok::<(Seq<char>, u32, u32, int), TraceError>(
            (
                spaced(tokens, 0, k) + (if k != 0 {
                    seq![' ']
                } else {
                    Seq::empty()
                }) + base,
                parse_u32(pid)->Some_0,
                parse_u32(cpu)->Some_0,
                k,
            ),
        ),
{
    lemma_trial_split_of(base, '-', pid);
    lemma_command_and_pid(tokens, '-', 0, k, base, parse_u32(pid)->Some_0);
    lemma_bracketed_number(cpu);
}

/// The same of a line of text: where the words of the line are as
/// `lemma_line_header` asks of the tokens, the line that spells them gives
/// the pid and the CPU exactly.
pub proof fn lemma_line_text_header(
    words: Seq<Seq<char>>,
    k: int,
    base: Seq<char>,
    pid: Seq<char>,
    cpu: Seq<char>,
)
    requires
        forall|j: int| 0 <= j < words.len() ==> is_word(#[trigger] words[j]),
        0 <= k,
        k + 1 < words.len(),
        forall|j: int| 0 <= j < k ==> trial_split(#[trigger] words[j], '-').is_none(),
        words[k] == base + seq!['-'] + pid,
        words[k + 1] == seq!['['] + cpu + seq![']'],
        parse_u32(pid).is_some(),
        parse_u32(cpu).is_some(),
    ensures
        line_header(split_whitespace(spaced_line(words))) matches Ok((_, found_pid, found_cpu, at))
            && found_pid == parse_u32(pid)->Some_0 && found_cpu == parse_u32(cpu)->Some_0 && at
            == k,
{
    lemma_split_whitespace_spaced(words);
    lemma_line_header(words, k, base, pid, cpu);
}

/// A line that decodes has the pid and the CPU of its start.
pub proof fn lemma_action_pid_and_cpu(tokens: Seq<Seq<char>>, table: Map<u32, Wstate>)
    ensures
        decode_line(tokens, table) matches Ok((action, _)) ==> line_header(tokens) matches Ok(
            (process, pid, cpu, _),
        ) && action.process == process && action.pid == pid && action.cpu == cpu,
{
}

/// A task that is being woken and then migrates was placed by the
/// wake-up: as long as no other event of the task is decoded, every
/// migration of it is an unblock placement, on or off the socket.
pub proof fn lemma_waking_then_migration(
    table: Map<u32, Wstate>,
    machine: Machine,
    cpu: u32,
    command: Seq<char>,
    pid: u32,
    target_cpu: u32,
    orig_cpu: u32,
    dest_cpu: u32,
)
    ensures
        migration_cause(
            wake_effect(EventsView::SchedWaking { command, pid, target_cpu }, cpu, table),
            machine,
            pid,
            orig_cpu,
            dest_cpu,
        ) == unblock_placement(machine, orig_cpu, dest_cpu),
{
}

/// A task that was woken and then migrates was moved by the load
/// balancer, whatever the table said of it before the wake-up.
pub proof fn lemma_wakeup_then_migration(
    table: Map<u32, Wstate>,
    machine: Machine,
    cpu: u32,
    command: Seq<char>,
    pid: u32,
    prev_cpu: Option<u32>,
    woken_on: u32,
    orig_cpu: u32,
    dest_cpu: u32,
)
    ensures
        migration_cause(
            wake_effect(
                EventsView::SchedWakeup { command, pid, prev_cpu, cpu: woken_on },
                cpu,
                table,
            ),
            machine,
            pid,
            orig_cpu,
            dest_cpu,
        ) == load_balancing(machine, orig_cpu, dest_cpu),
{
}

/// After a NUMA swap, the migration of the source task between the very
/// CPUs that the swap named is NUMA balancing, and any other migration of
/// it is load balancing. The tasks must be two.
pub proof fn lemma_swap_numa_then_migration(
    table: Map<u32, Wstate>,
    machine: Machine,
    cpu: u32,
    src_pid: u32,
    src_cpu: i32,
    dst_pid: u32,
    dst_cpu: i32,
    orig_cpu: u32,
    dest_cpu: u32,
)
    requires
        src_pid != dst_pid,
    ensures
        ({
            let after = wake_effect(
                EventsView::SchedSwapNuma { src_pid, src_cpu, dst_pid, dst_cpu },
                cpu,
                table,
            );
            migration_cause(after, machine, src_pid, orig_cpu, dest_cpu) == (if orig_cpu == src_cpu
                && dest_cpu == dst_cpu {
                Ok::<MigrationCause, crate::graph::ConfigError>(MigrationCause::NumaBalancing)
            } else {
                load_balancing(machine, orig_cpu, dest_cpu)
            })
        }),
{
}

/// The state that a decoded migration carries and the cause that the
/// classifier names say the same: a migration of a task without an entry
/// carries no state and is unclassified, and no other is; one seen under a
/// waking state is an unblock placement, one seen as woken is load
/// balancing, and one seen under its pending NUMA move is NUMA balancing.
pub proof fn lemma_state_and_cause(
    table: Map<u32, Wstate>,
    machine: Machine,
    pid: u32,
    orig_cpu: u32,
    dest_cpu: u32,
)
    ensures
        migration_state(table, pid, orig_cpu, dest_cpu).is_none() <==> !table.contains_key(pid),
        migration_state(table, pid, orig_cpu, dest_cpu).is_none() <==> migration_cause(
            table,
            machine,
            pid,
            orig_cpu,
            dest_cpu,
        ) == Ok::<MigrationCause, crate::graph::ConfigError>(MigrationCause::Unclassified),
        match migration_state(table, pid, orig_cpu, dest_cpu) {
            None => true,
            Some(Wstate::Waking(_, _)) => migration_cause(table, machine, pid, orig_cpu, dest_cpu)
                == unblock_placement(machine, orig_cpu, dest_cpu),
            Some(Wstate::Woken) => migration_cause(table, machine, pid, orig_cpu, dest_cpu)
                == load_balancing(machine, orig_cpu, dest_cpu),
            Some(Wstate::Numa(_, _)) => migration_cause(table, machine, pid, orig_cpu, dest_cpu)
                == Ok::<MigrationCause, crate::graph::ConfigError>(MigrationCause::NumaBalancing),
        },
{
}

/// A migration of a task without an entry decodes to an event without a
/// state, and leaves the table without an entry for the task.
pub proof fn lemma_unknown_migration(
    tokens: Seq<Seq<char>>,
    cpu: u32,
    table: Map<u32, Wstate>,
    index: int,
)
    ensures
        decode_event(tokens, cpu, table, "sched_migrate_task"@, index) matches Ok((event, after))
            ==> after == table && (event matches EventsView::SchedMigrateTask { pid, state, .. }
            && (state.is_none() <==> !table.contains_key(pid))),
{
    // The name is told from the four that are tried before it by its length.
    reveal_strlit("sched_migrate_task");
    reveal_strlit("sched_waking");
    reveal_strlit("sched_wake_idle_without_ipi");
    reveal_strlit("sched_wakeup");
    reveal_strlit("sched_wakeup_new");
    assert("sched_migrate_task"@.len() == 18);
    assert("sched_waking"@.len() == 12);
    assert("sched_wake_idle_without_ipi"@.len() == 27);
    assert("sched_wakeup"@.len() == 12);
    assert("sched_wakeup_new"@.len() == 16);
}

/// Classifying leaves the table alone, so migrations repeat their cause:
/// until another event of the task is decoded, every migration of it
/// between the same CPUs is classified alike. An event of another task
/// changes nothing for this one.
pub proof fn lemma_cause_is_stable(
    table: Map<u32, Wstate>,
    machine: Machine,
    pid: u32,
    orig_cpu: u32,
    dest_cpu: u32,
    event: EventsView,
    cpu: u32,
)
    requires
        match event {
            EventsView::SchedWaking { pid: other, .. } => other != pid,
            EventsView::SchedWakeup { pid: other, .. } => other != pid,
            EventsView::SchedWakeupNew { pid: other, .. } => other != pid,
            EventsView::SchedProcessFork { child_pid, .. } => child_pid != pid,
            EventsView::SchedSwapNuma { src_pid, dst_pid, .. } => src_pid != pid && dst_pid != pid,
            EventsView::SchedMoveNuma { src_pid, .. } => src_pid != pid,
            _ => true,
        },
    ensures
        migration_cause(wake_effect(event, cpu, table), machine, pid, orig_cpu, dest_cpu)
            == migration_cause(table, machine, pid, orig_cpu, dest_cpu),
{
}

} // verus!
