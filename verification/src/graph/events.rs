//! The events of the scheduler: what each one spells in a trace line and
//! what it does to the wake-state table.
//!
//! Every kind of event has a fixed run of fields after its name. A field
//! is a token with a key in front, such as `target_cpu=2`; commands, which
//! may hold white space, are read by the rules of the parser. A field that
//! must be a number and is none stops the scan, and so does a line that
//! ends before a field.

use vstd::prelude::*;
use std::collections::HashMap;
use crate::graph::decimal::{parse_i32, parse_u32, read_i32, read_u32};
use crate::graph::parser::{
    command_and_pid, extract_command_and_pid, first_split, named_args, parse_named_args,
    token_chars, Events, EventsView, TraceError, Wstate,
};
use crate::graph::text::{key_length, str_chars, strip_key, token_views};

verus! {

broadcast use vstd::std_specs::hash::group_hash_axioms;

/// The unsigned number in the token at `i`, after the key `key`.
pub open spec fn field_u32(tokens: Seq<Seq<char>>, i: int, key: Seq<char>) -> Result<
    u32,
    TraceError,
> {
    if i < 0 || i >= tokens.len() {
        Err(TraceError::MissingField)
    } else {
        match parse_u32(strip_key(tokens[i], key)) {
            Some(v) => Ok(v),
            None => Err(TraceError::InvalidNumber),
        }
    }
}

/// The signed number in the token at `i`, after the key `key`.
pub open spec fn field_i32(tokens: Seq<Seq<char>>, i: int, key: Seq<char>) -> Result<
    i32,
    TraceError,
> {
    if i < 0 || i >= tokens.len() {
        Err(TraceError::MissingField)
    } else {
        match parse_i32(strip_key(tokens[i], key)) {
            Some(v) => Ok(v),
            None => Err(TraceError::InvalidNumber),
        }
    }
}

/// The text of the token at `i`, after the key `key`.
pub open spec fn field_text(tokens: Seq<Seq<char>>, i: int, key: Seq<char>) -> Result<
    Seq<char>,
    TraceError,
> {
    if i < 0 || i >= tokens.len() {
        Err(TraceError::MissingField)
    } else {
        Ok(strip_key(tokens[i], key))
    }
}

/// What decoding one event gives: the event and the wake-state table
/// after it, or the error that stops the scan.
pub type Decoded = Result<(EventsView, Map<u32, Wstate>), TraceError>;

/// What decoding gives for an event that leaves the table alone.
pub type DecodedEvent = Result<EventsView, TraceError>;

/// The outcome of an event that leaves the table `table` as it is.
pub open spec fn keeping(event: DecodedEvent, table: Map<u32, Wstate>) -> Decoded {
    match event {
        Ok(event) => Ok((event, table)),
        Err(e) => Err(e),
    }
}

/// The CPU that was waking the task `pid`, where the table says that it is
/// being woken.
pub open spec fn waking_origin(table: Map<u32, Wstate>, pid: u32) -> Option<u32> {
    if table.contains_key(pid) {
        match table[pid] {
            Wstate::Waking(origin, _) => Some(origin),
            _ => None,
        }
    } else {
        None
    }
}

/// The CPU chosen for the task `pid`, where the table says that it is
/// being woken.
pub open spec fn waking_target(table: Map<u32, Wstate>, pid: u32) -> Option<u32> {
    if table.contains_key(pid) {
        match table[pid] {
            Wstate::Waking(_, target) => Some(target),
            _ => None,
        }
    } else {
        None
    }
}

/// The wake state that a migration of `pid` from `orig_cpu` to `dest_cpu`
/// is seen under.
///
/// Of a task without an entry nothing is known, and the migration is seen
/// under no state at all. A pending NUMA move counts only for the very
/// pair of CPUs that it names: under any other migration the task is seen
/// as woken. Any other entry is the state.
pub open spec fn migration_state(
    table: Map<u32, Wstate>,
    pid: u32,
    orig_cpu: u32,
    dest_cpu: u32,
) -> Option<Wstate> {
    if table.contains_key(pid) {
        match table[pid] {
            Wstate::Numa(src, dst) => if orig_cpu == src && dest_cpu == dst {
                Some(Wstate::Numa(src, dst))
            } else {
                Some(Wstate::Woken)
            },
            state => Some(state),
        }
    } else {
        None
    }
}

/// `sched_waking: comm=<command> pid=<pid> prio=<n> target_cpu=<cpu>`.
/// The task is now being woken, from the CPU of the line to the target.
pub open spec fn decode_waking(
    tokens: Seq<Seq<char>>,
    cpu: u32,
    table: Map<u32, Wstate>,
    index: int,
) -> Decoded {
    match named_args(tokens, index, "comm="@, "pid="@) {
        Err(e) => Err(e),
        Ok((command, pid, k)) => match field_u32(tokens, k + 2, "target_cpu="@) {
            Err(e) => Err(e),
            Ok(target_cpu) => Ok(
                (
                    EventsView::SchedWaking { command, pid, target_cpu },
                    table.insert(pid, Wstate::Waking(cpu, target_cpu)),
                ),
            ),
        },
    }
}

/// `sched_wake_idle_without_ipi: cpu=<cpu>`.
pub open spec fn decode_wake_idle(tokens: Seq<Seq<char>>, index: int) -> DecodedEvent {
    match field_u32(tokens, index, "cpu="@) {
        Err(e) => Err(e),
        Ok(cpu) => Ok(EventsView::SchedWakeIdleNoIpi { cpu }),
    }
}

/// `sched_wakeup: <command>:<pid> [<prio>] CPU:<cpu>`. The event carries
/// the CPU that was waking the task, where the table has it; the task is
/// now woken.
pub open spec fn decode_wakeup(tokens: Seq<Seq<char>>, table: Map<u32, Wstate>, index: int)
    -> Decoded {
    match command_and_pid(tokens, ':', index) {
        Err(e) => Err(e),
        Ok((command, pid, k)) => match field_u32(tokens, k + 2, "CPU:"@) {
            Err(e) => Err(e),
            Ok(cpu) => Ok(
                (
                    EventsView::SchedWakeup {
                        command,
                        pid,
                        prev_cpu: waking_origin(table, pid),
                        cpu,
                    },
                    table.insert(pid, Wstate::Woken),
                ),
            ),
        },
    }
}

/// `sched_wakeup_new: <command>:<pid> [<prio>] CPU:<cpu>`. The task must
/// be in the table as being woken, by its fork or by a waking event; the
/// event carries the CPU chosen then, and the task is now woken.
pub open spec fn decode_wakeup_new(tokens: Seq<Seq<char>>, table: Map<u32, Wstate>, index: int)
    -> Decoded {
    match command_and_pid(tokens, ':', index) {
        Err(e) => Err(e),
        Ok((command, pid, k)) => match field_u32(tokens, k + 2, "CPU:"@) {
            Err(e) => Err(e),
            Ok(cpu) => match waking_target(table, pid) {
                None => Err(TraceError::WakeupWithoutWaking),
                Some(parent_cpu) => Ok(
                    (
                        EventsView::SchedWakeupNew { command, pid, parent_cpu, cpu },
                        table.insert(pid, Wstate::Woken),
                    ),
                ),
            },
        },
    }
}

/// `sched_migrate_task: comm=<command> pid=<pid> prio=<n> orig_cpu=<cpu>
/// dest_cpu=<cpu>`. The event carries the wake state it is seen under, and
/// none where the table knows nothing of the task.
pub open spec fn decode_migrate(tokens: Seq<Seq<char>>, table: Map<u32, Wstate>, index: int)
    -> DecodedEvent {
    match named_args(tokens, index, "comm="@, "pid="@) {
        Err(e) => Err(e),
        Ok((command, pid, k)) => match field_u32(tokens, k + 2, "orig_cpu="@) {
            Err(e) => Err(e),
            Ok(orig_cpu) => match field_u32(tokens, k + 3, "dest_cpu="@) {
                Err(e) => Err(e),
                Ok(dest_cpu) => Ok(
                    EventsView::SchedMigrateTask {
                        command,
                        pid,
                        orig_cpu,
                        dest_cpu,
                        state: migration_state(table, pid, orig_cpu, dest_cpu),
                    },
                ),
            },
        },
    }
}

/// `sched_switch: <command>:<pid> [<prio>] <state> ==> <command>:<pid>
/// [<prio>]`.
pub open spec fn decode_switch(tokens: Seq<Seq<char>>, index: int) -> DecodedEvent {
    match command_and_pid(tokens, ':', index) {
        Err(e) => Err(e),
        Ok((old_command, old_pid, k)) => match field_text(tokens, k + 2, Seq::empty()) {
            Err(e) => Err(e),
            Ok(state) => match command_and_pid(tokens, ':', k + 4) {
                Err(e) => Err(e),
                Ok((new_command, new_pid, _)) => Ok(
                    EventsView::SchedSwitch { old_command, old_pid, state, new_command, new_pid },
                ),
            },
        },
    }
}

/// `sched_process_free: comm=<command> pid=<pid> …`.
pub open spec fn decode_process_free(tokens: Seq<Seq<char>>, index: int) -> DecodedEvent {
    match named_args(tokens, index, "comm="@, "pid="@) {
        Err(e) => Err(e),
        Ok((command, pid, _)) => Ok(EventsView::SchedProcessFree { command, pid }),
    }
}

/// `sched_process_wait: comm=<command> pid=<pid> …`.
pub open spec fn decode_process_wait(tokens: Seq<Seq<char>>, index: int) -> DecodedEvent {
    match named_args(tokens, index, "comm="@, "pid="@) {
        Err(e) => Err(e),
        Ok((command, pid, _)) => Ok(EventsView::SchedProcessWait { command, pid }),
    }
}

/// `sched_process_exit: comm=<command> pid=<pid> …`.
pub open spec fn decode_process_exit(tokens: Seq<Seq<char>>, index: int) -> DecodedEvent {
    match named_args(tokens, index, "comm="@, "pid="@) {
        Err(e) => Err(e),
        Ok((command, pid, _)) => Ok(EventsView::SchedProcessExit { command, pid }),
    }
}

/// `sched_process_exec: filename=<path> pid=<pid> old_pid=<pid>`.
pub open spec fn decode_process_exec(tokens: Seq<Seq<char>>, index: int) -> DecodedEvent {
    match field_text(tokens, index, "filename="@) {
        Err(e) => Err(e),
        Ok(filename) => match field_u32(tokens, index + 1, "pid="@) {
            Err(e) => Err(e),
            Ok(pid) => match field_u32(tokens, index + 2, "old_pid="@) {
                Err(e) => Err(e),
                Ok(old_pid) => Ok(EventsView::SchedProcessExec { filename, pid, old_pid }),
            },
        },
    }
}

/// `sched_process_fork: comm=<command> pid=<pid> child_comm=<command>
/// child_pid=<pid>`. The child is now being woken, on the CPU of the line.
pub open spec fn decode_process_fork(
    tokens: Seq<Seq<char>>,
    cpu: u32,
    table: Map<u32, Wstate>,
    index: int,
) -> Decoded {
    match named_args(tokens, index, "comm="@, "pid="@) {
        Err(e) => Err(e),
        Ok((command, pid, k)) => match named_args(tokens, k + 1, "child_comm="@, "child_pid="@) {
            Err(e) => Err(e),
            Ok((child_command, child_pid, _)) => Ok(
                (
                    EventsView::SchedProcessFork { command, pid, child_command, child_pid },
                    table.insert(child_pid, Wstate::Waking(cpu, cpu)),
                ),
            ),
        },
    }
}

/// The four numbers of a NUMA swap or stick event, whose fields are
/// `src_pid= src_tgid= src_ngid= src_cpu= src_nid= dst_pid= dst_tgid=
/// dst_ngid= dst_cpu= dst_nid=`: source pid and CPU, destination pid and
/// CPU.
pub open spec fn numa_pair(tokens: Seq<Seq<char>>, index: int) -> Result<
    (u32, i32, u32, i32),
    TraceError,
> {
    match field_u32(tokens, index, "src_pid="@) {
        Err(e) => Err(e),
        Ok(src_pid) => match field_i32(tokens, index + 3, "src_cpu="@) {
            Err(e) => Err(e),
            Ok(src_cpu) => match field_u32(tokens, index + 5, "dst_pid="@) {
                Err(e) => Err(e),
                Ok(dst_pid) => match field_i32(tokens, index + 8, "dst_cpu="@) {
                    Err(e) => Err(e),
                    Ok(dst_cpu) => Ok((src_pid, src_cpu, dst_pid, dst_cpu)),
                },
            },
        },
    }
}

/// `sched_swap_numa`: two tasks are to change places. Each is now pending
/// a NUMA move to the CPU of the other; where both pids are the same, the
/// entry of the destination stands.
pub open spec fn decode_swap_numa(tokens: Seq<Seq<char>>, table: Map<u32, Wstate>, index: int)
    -> Decoded {
    match numa_pair(tokens, index) {
        Err(e) => Err(e),
        Ok((src_pid, src_cpu, dst_pid, dst_cpu)) => Ok(
            (
                EventsView::SchedSwapNuma { src_pid, src_cpu, dst_pid, dst_cpu },
                table.insert(src_pid, Wstate::Numa(src_cpu, dst_cpu)).insert(
                    dst_pid,
                    Wstate::Numa(dst_cpu, src_cpu),
                ),
            ),
        ),
    }
}

/// `sched_stick_numa`: a NUMA move that did not happen.
pub open spec fn decode_stick_numa(tokens: Seq<Seq<char>>, index: int) -> DecodedEvent {
    match numa_pair(tokens, index) {
        Err(e) => Err(e),
        Ok((src_pid, src_cpu, dst_pid, dst_cpu)) => Ok(
            EventsView::SchedStickNuma { src_pid, src_cpu, dst_pid, dst_cpu },
        ),
    }
}

/// `sched_move_numa: pid=<pid> tgid= ngid= src_cpu=<cpu> src_nid=
/// dst_cpu=<cpu> dst_nid=`. The task is now pending a NUMA move.
pub open spec fn decode_move_numa(tokens: Seq<Seq<char>>, table: Map<u32, Wstate>, index: int)
    -> Decoded {
    match field_u32(tokens, index, "pid="@) {
        Err(e) => Err(e),
        Ok(src_pid) => match field_i32(tokens, index + 3, "src_cpu="@) {
            Err(e) => Err(e),
            Ok(src_cpu) => match field_i32(tokens, index + 5, "dst_cpu="@) {
                Err(e) => Err(e),
                Ok(dst_cpu) => Ok(
                    (
                        EventsView::SchedMoveNuma { src_pid, src_cpu, dst_cpu },
                        table.insert(src_pid, Wstate::Numa(src_cpu, dst_cpu)),
                    ),
                ),
            },
        },
    }
}

/// Whether the outcome `r` of decoding an event, with the table going from
/// `before` to `after`, is what `expected` says. An error leaves the table
/// as it was.
pub open spec fn decoded_as(
    r: Result<Events, TraceError>,
    before: Map<u32, Wstate>,
    after: Map<u32, Wstate>,
    expected: Decoded,
) -> bool {
    match r {
        Ok(event) => expected == Ok::<(EventsView, Map<u32, Wstate>), TraceError>((event@, after)),
        Err(e) => expected == Err::<(EventsView, Map<u32, Wstate>), TraceError>(e) && after
            == before,
    }
}

/// Whether the outcome `r` of decoding an event that leaves the table
/// alone is what `expected` says.
pub open spec fn event_as(r: Result<Events, TraceError>, expected: DecodedEvent) -> bool {
    match r {
        Ok(event) => expected == Ok::<EventsView, TraceError>(event@),
        Err(e) => expected == Err::<EventsView, TraceError>(e),
    }
}

/// The position `base + offset`, where the line has a token there.
fn token_at(parts: &Vec<&str>, base: usize, offset: usize) -> (r: Option<usize>)
    ensures
        match r {
            Some(i) => i == base + offset && i < parts.len(),
            None => base + offset >= parts.len(),
        },
{
    if base < parts.len() && offset < parts.len() - base {
        Some(base + offset)
    } else {
        None
    }
}

/// Reads the unsigned number of the token at `base + offset`, after `key`.
fn read_field_u32(parts: &Vec<&str>, base: usize, offset: usize, key: &str) -> (r: Result<
    u32,
    TraceError,
>)
    ensures
        r == field_u32(token_views(parts@), base + offset, key@),
{
    match token_at(parts, base, offset) {
        None => Err(TraceError::MissingField),
        Some(i) => {
            let chars = token_chars(parts, i);
            let skip = key_length(&chars, key);
            match read_u32(&chars, skip) {
                Some(v) => Ok(v),
                None => Err(TraceError::InvalidNumber),
            }
        },
    }
}

/// Reads the signed number of the token at `base + offset`, after `key`.
fn read_field_i32(parts: &Vec<&str>, base: usize, offset: usize, key: &str) -> (r: Result<
    i32,
    TraceError,
>)
    ensures
        r == field_i32(token_views(parts@), base + offset, key@),
{
    match token_at(parts, base, offset) {
        None => Err(TraceError::MissingField),
        Some(i) => {
            let chars = token_chars(parts, i);
            let skip = key_length(&chars, key);
            match read_i32(&chars, skip) {
                Some(v) => Ok(v),
                None => Err(TraceError::InvalidNumber),
            }
        },
    }
}

/// Reads the text of the token at `base + offset`, after `key`.
fn read_field_text(parts: &Vec<&str>, base: usize, offset: usize, key: &str) -> (r: Result<
    String,
    TraceError,
>)
    ensures
        match r {
            Ok(text) => field_text(token_views(parts@), base + offset, key@) == Ok::<
                Seq<char>,
                TraceError,
            >(text@),
            Err(e) => field_text(token_views(parts@), base + offset, key@) == Err::<
                Seq<char>,
                TraceError,
            >(e),
        },
{
    match token_at(parts, base, offset) {
        None => Err(TraceError::MissingField),
        Some(i) => {
            let token = parts[i];
            let chars = str_chars(token);
            let skip = key_length(&chars, key);
            proof {
                assert(token@ == token_views(parts@)[i as int]);
                assert(token@.subrange(skip as int, token@.len() as int) =~= token@.skip(
                    skip as int,
                ));
            }
            Ok(String::from_str(token.substring_char(skip, chars.len())))
        },
    }
}

/// Reads the four numbers of a NUMA swap or stick event.
fn read_numa_pair(parts: &Vec<&str>, index: usize) -> (r: Result<(u32, i32, u32, i32), TraceError>)
    ensures
        r == numa_pair(token_views(parts@), index as int),
{
    let src_pid = match read_field_u32(parts, index, 0, "src_pid=") {
        Ok(found) => found,
        Err(e) => {
            return Err(e);
        },
    };
    let src_cpu = match read_field_i32(parts, index, 3, "src_cpu=") {
        Ok(found) => found,
        Err(e) => {
            return Err(e);
        },
    };
    let dst_pid = match read_field_u32(parts, index, 5, "dst_pid=") {
        Ok(found) => found,
        Err(e) => {
            return Err(e);
        },
    };
    let dst_cpu = match read_field_i32(parts, index, 8, "dst_cpu=") {
        Ok(found) => found,
        Err(e) => {
            return Err(e);
        },
    };
    Ok((src_pid, src_cpu, dst_pid, dst_cpu))
}

/// The wake state of `pid`, where the table has one.
fn lookup(process_state: &HashMap<u32, Wstate>, pid: u32) -> (r: Option<Wstate>)
    ensures
        match r {
            Some(state) => process_state@.contains_key(pid) && process_state@[pid] == state,
            None => !process_state@.contains_key(pid),
        },
{
    match process_state.get(&pid) {
        Some(state) => Some(*state),
        None => None,
    }
}

/// Decodes a `sched_waking` event and records that its task is being
/// woken.
pub(crate) fn read_waking(
    part: &Vec<&str>,
    process_cpu: u32,
    process_state: &mut HashMap<u32, Wstate>,
    index: usize,
) -> (r: Result<Events, TraceError>)
    ensures
        decoded_as(
            r,
            old(process_state)@,
            final(process_state)@,
            decode_waking(token_views(part@), process_cpu, old(process_state)@, index as int),
        ),
{
    let (command, pid, k) = match parse_named_args(part, index, "comm=", "pid=") {
        Ok(found) => found,
        Err(e) => {
            return Err(e);
        },
    };
    let target_cpu = match read_field_u32(part, k, 2, "target_cpu=") {
        Ok(found) => found,
        Err(e) => {
            return Err(e);
        },
    };
    process_state.insert(pid, Wstate::Waking(process_cpu, target_cpu));
    Ok(Events::SchedWaking { command, pid, target_cpu })
}

/// Decodes a `sched_wake_idle_without_ipi` event.
pub(crate) fn read_wake_idle(part: &Vec<&str>, index: usize) -> (r: Result<Events, TraceError>)
    ensures
        event_as(r, decode_wake_idle(token_views(part@), index as int)),
{
    let cpu = match read_field_u32(part, index, 0, "cpu=") {
        Ok(found) => found,
        Err(e) => {
            return Err(e);
        },
    };
    Ok(Events::SchedWakeIdleNoIpi { cpu })
}

/// Decodes a `sched_wakeup` event and records that its task is woken.
pub(crate) fn read_wakeup(
    part: &Vec<&str>,
    process_state: &mut HashMap<u32, Wstate>,
    index: usize,
) -> (r: Result<Events, TraceError>)
    ensures
        decoded_as(
            r,
            old(process_state)@,
            final(process_state)@,
            decode_wakeup(token_views(part@), old(process_state)@, index as int),
        ),
{
    let (command, pid, k) = match extract_command_and_pid(part, ':', index) {
        Ok(found) => found,
        Err(e) => {
            return Err(e);
        },
    };
    let cpu = match read_field_u32(part, k, 2, "CPU:") {
        Ok(found) => found,
        Err(e) => {
            return Err(e);
        },
    };
    let prev_cpu = match lookup(process_state, pid) {
        Some(Wstate::Waking(origin, _)) => Some(origin),
        _ => None,
    };
    process_state.insert(pid, Wstate::Woken);
    Ok(Events::SchedWakeup { command, pid, prev_cpu, cpu })
}

/// Decodes a `sched_wakeup_new` event of a task that is being woken, and
/// records that it is woken.
pub(crate) fn read_wakeup_new(
    part: &Vec<&str>,
    process_state: &mut HashMap<u32, Wstate>,
    index: usize,
) -> (r: Result<Events, TraceError>)
    ensures
        decoded_as(
            r,
            old(process_state)@,
            final(process_state)@,
            decode_wakeup_new(token_views(part@), old(process_state)@, index as int),
        ),
{
    let (command, pid, k) = match extract_command_and_pid(part, ':', index) {
        Ok(found) => found,
        Err(e) => {
            return Err(e);
        },
    };
    let cpu = match read_field_u32(part, k, 2, "CPU:") {
        Ok(found) => found,
        Err(e) => {
            return Err(e);
        },
    };
    let parent_cpu = match lookup(process_state, pid) {
        Some(Wstate::Waking(_, target)) => target,
        _ => {
            return Err(TraceError::WakeupWithoutWaking);
        },
    };
    process_state.insert(pid, Wstate::Woken);
    Ok(Events::SchedWakeupNew { command, pid, parent_cpu, cpu })
}

/// Decodes a `sched_migrate_task` event against the wake-state table.
pub(crate) fn read_migrate(
    part: &Vec<&str>,
    process_state: &HashMap<u32, Wstate>,
    index: usize,
) -> (r: Result<Events, TraceError>)
    ensures
        event_as(r, decode_migrate(token_views(part@), process_state@, index as int)),
{
    let (command, pid, k) = match parse_named_args(part, index, "comm=", "pid=") {
        Ok(found) => found,
        Err(e) => {
            return Err(e);
        },
    };
    let orig_cpu = match read_field_u32(part, k, 2, "orig_cpu=") {
        Ok(found) => found,
        Err(e) => {
            return Err(e);
        },
    };
    let dest_cpu = match read_field_u32(part, k, 3, "dest_cpu=") {
        Ok(found) => found,
        Err(e) => {
            return Err(e);
        },
    };
    let state = match lookup(process_state, pid) {
        Some(Wstate::Numa(src, dst)) => {
            if src >= 0 && dst >= 0 && orig_cpu == src as u32 && dest_cpu == dst as u32 {
                Some(Wstate::Numa(src, dst))
            } else {
                Some(Wstate::Woken)
            }
        },
        Some(other) => Some(other),
        None => None,
    };
    Ok(Events::SchedMigrateTask { command, pid, orig_cpu, dest_cpu, state })
}

/// Decodes a `sched_switch` event.
pub(crate) fn read_switch(part: &Vec<&str>, index: usize) -> (r: Result<Events, TraceError>)
    ensures
        event_as(r, decode_switch(token_views(part@), index as int)),
{
    let ghost tokens = token_views(part@);
    let (old_command, old_pid, k) = match extract_command_and_pid(part, ':', index) {
        Ok(found) => found,
        Err(e) => {
            return Err(e);
        },
    };
    proof {
        reveal_strlit("");
        assert(""@ =~= Seq::<char>::empty());
    }
    let state = match read_field_text(part, k, 2, "") {
        Ok(found) => found,
        Err(e) => {
            return Err(e);
        },
    };
    let next = match token_at(part, k, 4) {
        Some(i) => i,
        None => {
            assert(first_split(tokens, ':', k + 4) == tokens.len());
            return Err(TraceError::MissingPid);
        },
    };
    let (new_command, new_pid, _) = match extract_command_and_pid(part, ':', next) {
        Ok(found) => found,
        Err(e) => {
            return Err(e);
        },
    };
    Ok(Events::SchedSwitch { old_command, old_pid, state, new_command, new_pid })
}

/// Decodes a `sched_process_free` event.
pub(crate) fn read_process_free(part: &Vec<&str>, index: usize) -> (r: Result<Events, TraceError>)
    ensures
        event_as(r, decode_process_free(token_views(part@), index as int)),
{
    let (command, pid, _) = match parse_named_args(part, index, "comm=", "pid=") {
        Ok(found) => found,
        Err(e) => {
            return Err(e);
        },
    };
    Ok(Events::SchedProcessFree { command, pid })
}

/// Decodes a `sched_process_wait` event.
pub(crate) fn read_process_wait(part: &Vec<&str>, index: usize) -> (r: Result<Events, TraceError>)
    ensures
        event_as(r, decode_process_wait(token_views(part@), index as int)),
{
    let (command, pid, _) = match parse_named_args(part, index, "comm=", "pid=") {
        Ok(found) => found,
        Err(e) => {
            return Err(e);
        },
    };
    Ok(Events::SchedProcessWait { command, pid })
}

/// Decodes a `sched_process_exit` event.
pub(crate) fn read_process_exit(part: &Vec<&str>, index: usize) -> (r: Result<Events, TraceError>)
    ensures
        event_as(r, decode_process_exit(token_views(part@), index as int)),
{
    let (command, pid, _) = match parse_named_args(part, index, "comm=", "pid=") {
        Ok(found) => found,
        Err(e) => {
            return Err(e);
        },
    };
    Ok(Events::SchedProcessExit { command, pid })
}

/// Decodes a `sched_process_exec` event.
pub(crate) fn read_process_exec(part: &Vec<&str>, index: usize) -> (r: Result<Events, TraceError>)
    ensures
        event_as(r, decode_process_exec(token_views(part@), index as int)),
{
    let filename = match read_field_text(part, index, 0, "filename=") {
        Ok(found) => found,
        Err(e) => {
            return Err(e);
        },
    };
    let pid = match read_field_u32(part, index, 1, "pid=") {
        Ok(found) => found,
        Err(e) => {
            return Err(e);
        },
    };
    let old_pid = match read_field_u32(part, index, 2, "old_pid=") {
        Ok(found) => found,
        Err(e) => {
            return Err(e);
        },
    };
    Ok(Events::SchedProcessExec { filename, pid, old_pid })
}

/// Decodes a `sched_process_fork` event and records that the child is
/// being woken on the CPU of the fork.
pub(crate) fn read_process_fork(
    part: &Vec<&str>,
    process_cpu: u32,
    process_state: &mut HashMap<u32, Wstate>,
    index: usize,
) -> (r: Result<Events, TraceError>)
    ensures
        decoded_as(
            r,
            old(process_state)@,
            final(process_state)@,
            decode_process_fork(token_views(part@), process_cpu, old(process_state)@, index as int),
        ),
{
    let (command, pid, k) = match parse_named_args(part, index, "comm=", "pid=") {
        Ok(found) => found,
        Err(e) => {
            return Err(e);
        },
    };
    let (child_command, child_pid, _) = match parse_named_args(
        part,
        k + 1,
        "child_comm=",
        "child_pid=",
    ) {
        Ok(found) => found,
        Err(e) => {
            return Err(e);
        },
    };
    process_state.insert(child_pid, Wstate::Waking(process_cpu, process_cpu));
    Ok(Events::SchedProcessFork { command, pid, child_command, child_pid })
}

/// Decodes a `sched_swap_numa` event and records the pending moves of
/// both tasks.
pub(crate) fn read_swap_numa(
    part: &Vec<&str>,
    process_state: &mut HashMap<u32, Wstate>,
    index: usize,
) -> (r: Result<Events, TraceError>)
    ensures
        decoded_as(
            r,
            old(process_state)@,
            final(process_state)@,
            decode_swap_numa(token_views(part@), old(process_state)@, index as int),
        ),
{
    let (src_pid, src_cpu, dst_pid, dst_cpu) = match read_numa_pair(part, index) {
        Ok(found) => found,
        Err(e) => {
            return Err(e);
        },
    };
    process_state.insert(src_pid, Wstate::Numa(src_cpu, dst_cpu));
    process_state.insert(dst_pid, Wstate::Numa(dst_cpu, src_cpu));
    Ok(Events::SchedSwapNuma { src_pid, src_cpu, dst_pid, dst_cpu })
}

/// Decodes a `sched_stick_numa` event.
pub(crate) fn read_stick_numa(part: &Vec<&str>, index: usize) -> (r: Result<Events, TraceError>)
    ensures
        event_as(r, decode_stick_numa(token_views(part@), index as int)),
{
    let (src_pid, src_cpu, dst_pid, dst_cpu) = match read_numa_pair(part, index) {
        Ok(found) => found,
        Err(e) => {
            return Err(e);
        },
    };
    Ok(Events::SchedStickNuma { src_pid, src_cpu, dst_pid, dst_cpu })
}

/// Decodes a `sched_move_numa` event and records the pending move.
pub(crate) fn read_move_numa(
    part: &Vec<&str>,
    process_state: &mut HashMap<u32, Wstate>,
    index: usize,
) -> (r: Result<Events, TraceError>)
    ensures
        decoded_as(
            r,
            old(process_state)@,
            final(process_state)@,
            decode_move_numa(token_views(part@), old(process_state)@, index as int),
        ),
{
    let src_pid = match read_field_u32(part, index, 0, "pid=") {
        Ok(found) => found,
        Err(e) => {
            return Err(e);
        },
    };
    let src_cpu = match read_field_i32(part, index, 3, "src_cpu=") {
        Ok(found) => found,
        Err(e) => {
            return Err(e);
        },
    };
    let dst_cpu = match read_field_i32(part, index, 5, "dst_cpu=") {
        Ok(found) => found,
        Err(e) => {
            return Err(e);
        },
    };
    process_state.insert(src_pid, Wstate::Numa(src_cpu, dst_cpu));
    Ok(Events::SchedMoveNuma { src_pid, src_cpu, dst_cpu })
}

} // verus!
