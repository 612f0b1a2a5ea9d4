//! The trace decoder and the wake-state table it keeps.
//!
//! A trace line has the shape
//! `<command>-<pid> [<cpu>] <timestamp>: <event>: <fields…>`. The command
//! may hold the separator and white space itself, so the pid is found by
//! trial: a token is split at its last separator, and where what follows is
//! not a number the whole token belongs to the command and the next token
//! is tried. The same rule reads the `name:pid` fields of the events, and a
//! sibling of it reads their `comm=… pid=…` fields.
//!
//! Decoding is not pure: some events write the table that maps a pid to its
//! latest wake state, and some read it.

use vstd::prelude::*;
use std::collections::HashMap;
use crate::graph::decimal::{parse_timestamp, parse_u32, read_timestamp, read_u32, Timestamp};
use crate::graph::events::{
    decode_migrate, decode_move_numa, decode_process_exec, decode_process_exit,
    decode_process_fork, decode_process_free, decode_process_wait, decode_stick_numa,
    decode_swap_numa, decode_switch, decode_wake_idle, decode_wakeup, decode_wakeup_new,
    decode_waking, decoded_as, keeping, read_migrate, read_move_numa, read_process_exec,
    read_process_exit, read_process_fork, read_process_free, read_process_wait, read_stick_numa,
    read_swap_numa, read_switch, read_wake_idle, read_wakeup, read_wakeup_new, read_waking,
    Decoded,
};
use crate::graph::text::{
    drop_brackets, key_length, last_position, same_text, split_line, split_whitespace, starts_with,
    str_chars, strip_key, token_views, without_brackets, without_last,
};

verus! {

broadcast use vstd::std_specs::hash::group_hash_axioms;

/// Why a task may move next: the latest wake-path event seen for its pid.
#[derive(Debug, Clone, Copy, PartialEq, Eq, Structural)]
pub enum Wstate {
    /// The task is being woken: the CPU that wakes it and the CPU chosen
    /// for it.
    Waking(u32, u32),
    /// The task has been woken and is runnable.
    Woken,
    /// The NUMA balancer means to move the task from the first CPU to the
    /// second.
    Numa(i32, i32),
}

/// What stops the decoding of a trace. Every variant is fatal to the scan.
#[derive(Debug, Clone, Copy, PartialEq, Eq, Structural)]
pub enum TraceError {
    /// The trace has no first line.
    MissingHeader,
    /// The first line does not start with `cpus=`.
    InvalidHeader,
    /// The line ends before a field that the event needs.
    MissingField,
    /// No token of the line carries the pid that a field needs.
    MissingPid,
    /// A field that must be a number is none, or is out of range.
    InvalidNumber,
    /// `sched_wakeup_new` for a pid that is not being woken.
    WakeupWithoutWaking,
}

/// One scheduler event.
#[allow(inconsistent_fields)]
#[derive(Debug, Clone, PartialEq, Eq)]
pub enum Events {
    // unblock - exec
    SchedWaking { command: String, pid: u32, target_cpu: u32 },
    SchedWakeIdleNoIpi { cpu: u32 },
    SchedWakeup { command: String, pid: u32, prev_cpu: Option<u32>, cpu: u32 },
    SchedWakeupNew { command: String, pid: u32, parent_cpu: u32, cpu: u32 },
    SchedMigrateTask {
        command: String,
        pid: u32,
        orig_cpu: u32,
        dest_cpu: u32,
        /// The wake state that the migration is seen under; `None` for a
        /// task that the table knows nothing of.
        state: Option<Wstate>,
    },
    SchedSwitch {
        old_command: String,
        old_pid: u32,
        state: String,
        new_command: String,
        new_pid: u32,
    },
    // process lifetime
    SchedProcessFree { command: String, pid: u32 },
    SchedProcessExec { filename: String, pid: u32, old_pid: u32 },
    SchedProcessFork { command: String, pid: u32, child_command: String, child_pid: u32 },
    SchedProcessWait { command: String, pid: u32 },
    SchedProcessExit { command: String, pid: u32 },
    // numa balancing
    SchedSwapNuma { src_pid: u32, src_cpu: i32, dst_pid: u32, dst_cpu: i32 },
    SchedStickNuma { src_pid: u32, src_cpu: i32, dst_pid: u32, dst_cpu: i32 },
    SchedMoveNuma { src_pid: u32, src_cpu: i32, dst_cpu: i32 },
    // other
    NotSupported,
}

/// An event as contracts see it: every text is its sequence of characters.
#[allow(inconsistent_fields)]
pub enum EventsView {
    SchedWaking { command: Seq<char>, pid: u32, target_cpu: u32 },
    SchedWakeIdleNoIpi { cpu: u32 },
    SchedWakeup { command: Seq<char>, pid: u32, prev_cpu: Option<u32>, cpu: u32 },
    SchedWakeupNew { command: Seq<char>, pid: u32, parent_cpu: u32, cpu: u32 },
    SchedMigrateTask {
        command: Seq<char>,
        pid: u32,
        orig_cpu: u32,
        dest_cpu: u32,
        state: Option<Wstate>,
    },
    SchedSwitch {
        old_command: Seq<char>,
        old_pid: u32,
        state: Seq<char>,
        new_command: Seq<char>,
        new_pid: u32,
    },
    SchedProcessFree { command: Seq<char>, pid: u32 },
    SchedProcessExec { filename: Seq<char>, pid: u32, old_pid: u32 },
    SchedProcessFork { command: Seq<char>, pid: u32, child_command: Seq<char>, child_pid: u32 },
    SchedProcessWait { command: Seq<char>, pid: u32 },
    SchedProcessExit { command: Seq<char>, pid: u32 },
    SchedSwapNuma { src_pid: u32, src_cpu: i32, dst_pid: u32, dst_cpu: i32 },
    SchedStickNuma { src_pid: u32, src_cpu: i32, dst_pid: u32, dst_cpu: i32 },
    SchedMoveNuma { src_pid: u32, src_cpu: i32, dst_cpu: i32 },
    NotSupported,
}

impl View for Events {
    type V = EventsView;

    open spec fn view(&self) -> EventsView {
        match *self {
            Events::SchedWaking { command, pid, target_cpu } => EventsView::SchedWaking {
                command: command@,
                pid,
                target_cpu,
            },
            Events::SchedWakeIdleNoIpi { cpu } => EventsView::SchedWakeIdleNoIpi { cpu },
            Events::SchedWakeup { command, pid, prev_cpu, cpu } => EventsView::SchedWakeup {
                command: command@,
                pid,
                prev_cpu,
                cpu,
            },
            Events::SchedWakeupNew { command, pid, parent_cpu, cpu } => EventsView::SchedWakeupNew {
                command: command@,
                pid,
                parent_cpu,
                cpu,
            },
            Events::SchedMigrateTask {
                command,
                pid,
                orig_cpu,
                dest_cpu,
                state,
            } => EventsView::SchedMigrateTask { command: command@, pid, orig_cpu, dest_cpu, state },
            Events::SchedSwitch {
                old_command,
                old_pid,
                state,
                new_command,
                new_pid,
            } => EventsView::SchedSwitch {
                old_command: old_command@,
                old_pid,
                state: state@,
                new_command: new_command@,
                new_pid,
            },
            Events::SchedProcessFree { command, pid } => EventsView::SchedProcessFree {
                command: command@,
                pid,
            },
            Events::SchedProcessExec { filename, pid, old_pid } => EventsView::SchedProcessExec {
                filename: filename@,
                pid,
                old_pid,
            },
            Events::SchedProcessFork {
                command,
                pid,
                child_command,
                child_pid,
            } => EventsView::SchedProcessFork {
                command: command@,
                pid,
                child_command: child_command@,
                child_pid,
            },
            Events::SchedProcessWait { command, pid } => EventsView::SchedProcessWait {
                command: command@,
                pid,
            },
            Events::SchedProcessExit { command, pid } => EventsView::SchedProcessExit {
                command: command@,
                pid,
            },
            Events::SchedSwapNuma {
                src_pid,
                src_cpu,
                dst_pid,
                dst_cpu,
            } => EventsView::SchedSwapNuma { src_pid, src_cpu, dst_pid, dst_cpu },
            Events::SchedStickNuma {
                src_pid,
                src_cpu,
                dst_pid,
                dst_cpu,
            } => EventsView::SchedStickNuma { src_pid, src_cpu, dst_pid, dst_cpu },
            Events::SchedMoveNuma { src_pid, src_cpu, dst_cpu } => EventsView::SchedMoveNuma {
                src_pid,
                src_cpu,
                dst_cpu,
            },
            Events::NotSupported => EventsView::NotSupported,
        }
    }
}

/// One decoded trace line: the task that was running, where and when, and
/// the event.
#[derive(Debug, Clone, PartialEq, Eq)]
pub struct Action {
    pub process: String,
    pub pid: u32,
    pub cpu: u32,
    pub timestamp: Timestamp,
    pub event: Events,
}

/// An action as contracts see it.
pub struct ActionView {
    pub process: Seq<char>,
    pub pid: u32,
    pub cpu: u32,
    pub timestamp: Timestamp,
    pub event: EventsView,
}

impl View for Action {
    type V = ActionView;

    open spec fn view(&self) -> ActionView {
        ActionView {
            process: self.process@,
            pid: self.pid,
            cpu: self.cpu,
            timestamp: self.timestamp,
            event: self.event@,
        }
    }
}

/// The trial split of one token at its last `sep`: the text before the
/// separator and the number after it. `None` where the token has no `sep`
/// or what follows the last one is no unsigned 32-bit number.
pub open spec fn trial_split(token: Seq<char>, sep: char) -> Option<(Seq<char>, u32)> {
    match token.index_of_last(sep) {
        Some(i) => match parse_u32(token.skip(i + 1)) {
            Some(pid) => Some((token.take(i), pid)),
            None => None,
        },
        None => None,
    }
}

/// The position of the first token from `from` on whose trial split
/// succeeds; the number of tokens where none does.
pub open spec fn first_split(tokens: Seq<Seq<char>>, sep: char, from: int) -> int
    decreases tokens.len() - from,
{
    if from < 0 || from >= tokens.len() {
        tokens.len() as int
    } else if trial_split(tokens[from], sep).is_some() {
        from
    } else {
        first_split(tokens, sep, from + 1)
    }
}

/// The position of the first token from `from` on that starts with `key`;
/// the number of tokens where none does.
pub open spec fn first_keyed(tokens: Seq<Seq<char>>, key: Seq<char>, from: int) -> int
    decreases tokens.len() - from,
{
    if from < 0 || from >= tokens.len() {
        tokens.len() as int
    } else if key.is_prefix_of(tokens[from]) {
        from
    } else {
        first_keyed(tokens, key, from + 1)
    }
}

/// The tokens from `from` up to `to`, each with one space in front of it.
pub open spec fn spaced(tokens: Seq<Seq<char>>, from: int, to: int) -> Seq<char>
    decreases to - from,
{
    if from >= to {
        Seq::empty()
    } else {
        spaced(tokens, from, to - 1) + seq![' '] + tokens[to - 1]
    }
}

/// A command and its pid, read from the tokens at `n` and after by trial
/// split with `sep`.
///
/// The pid comes from the first token whose trial split succeeds. The
/// command is every token before that one with a space in front of it,
/// then, where there is such a token, one more space, then the text before
/// the separator. The third part of the result is the position of the
/// token that held the pid. Where no token from `n` on splits, the field
/// has no pid.
pub open spec fn command_and_pid(tokens: Seq<Seq<char>>, sep: char, n: int) -> Result<
    (Seq<char>, u32, int),
    TraceError,
> {
    let k = first_split(tokens, sep, n);
    if 0 <= n <= k < tokens.len() {
        match trial_split(tokens[k], sep) {
            Some((base, pid)) => Ok(
                (
                    spaced(tokens, n, k) + (if k != n {
                        seq![' ']
                    } else {
                        Seq::empty()
                    }) + base,
                    pid,
                    k,
                ),
            ),
            None => Err(TraceError::MissingPid),
        }
    } else {
        Err(TraceError::MissingPid)
    }
}

/// A command and its pid, read from a `comm=… pid=…` pair of fields that
/// starts at `position`.
///
/// The command is the token at `position` without the key `comm`, and then
/// every token before the pid's with a space in front of it. The pid is
/// the number in the first later token that starts with the key `id`. The
/// third part of the result is the position of that token.
pub open spec fn named_args(
    tokens: Seq<Seq<char>>,
    position: int,
    comm: Seq<char>,
    id: Seq<char>,
) -> Result<(Seq<char>, u32, int), TraceError> {
    if position < 0 || position >= tokens.len() {
        Err(TraceError::MissingField)
    } else {
        let k = first_keyed(tokens, id, position + 1);
        if k >= tokens.len() {
            Err(TraceError::MissingPid)
        } else {
            match parse_u32(strip_key(tokens[k], id)) {
                Some(pid) => Ok(
                    (strip_key(tokens[position], comm) + spaced(tokens, position + 1, k), pid, k),
                ),
                None => Err(TraceError::InvalidNumber),
            }
        }
    }
}

/// Where the first split is: a token whose trial split succeeds, with none
/// before it from `from` on that does; or past the last token, with no
/// token from `from` on that splits.
pub proof fn lemma_first_split(tokens: Seq<Seq<char>>, sep: char, from: int)
    requires
        0 <= from <= tokens.len(),
    ensures
        from <= first_split(tokens, sep, from) <= tokens.len(),
        first_split(tokens, sep, from) < tokens.len() ==> trial_split(
            tokens[first_split(tokens, sep, from)],
            sep,
        ).is_some(),
        forall|j: int|
            from <= j < first_split(tokens, sep, from) ==> trial_split(
                #[trigger] tokens[j],
                sep,
            ).is_none(),
    decreases tokens.len() - from,
{
    if from < tokens.len() && trial_split(tokens[from], sep).is_none() {
        lemma_first_split(tokens, sep, from + 1);
    }
}

/// Where the first keyed token is: a token that starts with `key`, with
/// none before it from `from` on that does; or past the last token.
pub proof fn lemma_first_keyed(tokens: Seq<Seq<char>>, key: Seq<char>, from: int)
    requires
        0 <= from <= tokens.len(),
    ensures
        from <= first_keyed(tokens, key, from) <= tokens.len(),
        first_keyed(tokens, key, from) < tokens.len() ==> key.is_prefix_of(
            tokens[first_keyed(tokens, key, from)],
        ),
        forall|j: int|
            from <= j < first_keyed(tokens, key, from) ==> !key.is_prefix_of(#[trigger] tokens[j]),
    decreases tokens.len() - from,
{
    if from < tokens.len() && !key.is_prefix_of(tokens[from]) {
        lemma_first_keyed(tokens, key, from + 1);
    }
}

/// A position that meets the description of the first split is the first
/// split.
pub proof fn lemma_first_split_is(tokens: Seq<Seq<char>>, sep: char, from: int, k: int)
    requires
        0 <= from <= k <= tokens.len(),
        k < tokens.len() ==> trial_split(tokens[k], sep).is_some(),
        forall|j: int| from <= j < k ==> trial_split(#[trigger] tokens[j], sep).is_none(),
    ensures
        first_split(tokens, sep, from) == k,
    decreases k - from,
{
    if from < k {
        assert(trial_split(tokens[from], sep).is_none());
        lemma_first_split_is(tokens, sep, from + 1, k);
    }
}

/// A position that meets the description of the first keyed token is the
/// first keyed token.
pub proof fn lemma_first_keyed_is(tokens: Seq<Seq<char>>, key: Seq<char>, from: int, k: int)
    requires
        0 <= from <= k <= tokens.len(),
        k < tokens.len() ==> key.is_prefix_of(tokens[k]),
        forall|j: int| from <= j < k ==> !key.is_prefix_of(#[trigger] tokens[j]),
    ensures
        first_keyed(tokens, key, from) == k,
    decreases k - from,
{
    if from < k {
        assert(!key.is_prefix_of(tokens[from]));
        lemma_first_keyed_is(tokens, key, from + 1, k);
    }
}

/// The pid of a command comes from the first token that splits: where
/// `command_and_pid` finds a pid, the token at the position it gives
/// splits into the end of the command and that pid, and no token from `n`
/// up to it splits; where it finds none, no token from `n` on splits.
pub proof fn lemma_command_and_pid_found(tokens: Seq<Seq<char>>, sep: char, n: int)
    requires
        0 <= n,
    ensures
        match command_and_pid(tokens, sep, n) {
            Ok((_, pid, k)) => {
                &&& n <= k < tokens.len()
                &&& trial_split(tokens[k], sep) matches Some((_, found)) && found == pid
                &&& forall|j: int| n <= j < k ==> trial_split(#[trigger] tokens[j], sep).is_none()
            },
            Err(e) => e == TraceError::MissingPid && forall|j: int|
                n <= j < tokens.len() ==> trial_split(#[trigger] tokens[j], sep).is_none(),
        },
{
    if n <= tokens.len() {
        lemma_first_split(tokens, sep, n);
    }
}

/// The pid of a `comm=… pid=…` pair comes from the first token after the
/// command's that starts with the key of the pid: where `named_args`
/// finds a pid, the token at the position it gives starts with the key and
/// no token between the command's and it does.
pub proof fn lemma_named_args_found(
    tokens: Seq<Seq<char>>,
    position: int,
    comm: Seq<char>,
    id: Seq<char>,
)
    ensures
        named_args(tokens, position, comm, id) matches Ok((_, pid, k)) ==> {
            &&& position < k < tokens.len()
            &&& id.is_prefix_of(tokens[k])
            &&& parse_u32(tokens[k].skip(id.len() as int)) == Some(pid)
            &&& forall|j: int| position < j < k ==> !id.is_prefix_of(#[trigger] tokens[j])
        },
        named_args(tokens, position, comm, id) matches Err(e) ==> (e == TraceError::MissingPid
            <==> 0 <= position < tokens.len() && forall|j: int|
            position < j < tokens.len() ==> !id.is_prefix_of(#[trigger] tokens[j])),
{
    if 0 <= position < tokens.len() {
        lemma_first_keyed(tokens, id, position + 1);
    }
}

/// The characters of the token at `i`.
pub(crate) fn token_chars(parts: &Vec<&str>, i: usize) -> (chars: Vec<char>)
    requires
        i < parts.len(),
    ensures
        chars@ == token_views(parts@)[i as int],
{
    str_chars(parts[i])
}

/// Splits one token at its last `sep` and reads the number after it.
fn split_token<'a>(token: &'a str, sep: char) -> (r: Option<(&'a str, u32)>)
    ensures
        match r {
            Some((base, pid)) => trial_split(token@, sep) == Some((base@, pid)),
            None => trial_split(token@, sep).is_none(),
        },
{
    let chars = str_chars(token);
    match last_position(&chars, sep) {
        Some(i) => match read_u32(&chars, i + 1) {
            Some(pid) => {
                let base = token.substring_char(0, i);
                Some((base, pid))
            },
            None => None,
        },
        None => None,
    }
}

/// Reads a command and its pid from the tokens at `n` and after, by trial
/// split with `sep`.
pub fn extract_command_and_pid(parts: &Vec<&str>, sep: char, n: usize) -> (r: Result<
    (String, u32, usize),
    TraceError,
>)
    ensures
        match r {
            Ok((command, pid, next)) => command_and_pid(token_views(parts@), sep, n as int) == Ok::<
                (Seq<char>, u32, int),
                TraceError,
            >((command@, pid, next as int)),
            Err(e) => command_and_pid(token_views(parts@), sep, n as int) == Err::<
                (Seq<char>, u32, int),
                TraceError,
            >(e),
        },
        r matches Ok((_, _, next)) ==> n <= next < parts.len(),
{
    let ghost tokens = token_views(parts@);
    let mut command = String::new();
    let mut i: usize = n;
    proof {
        reveal_strlit(" ");
        assert(" "@ =~= seq![' ']);
    }
    while i < parts.len()
        invariant
            n <= i,
            tokens == token_views(parts@),
            " "@ == seq![' '],
            i <= parts.len() ==> command@ == spaced(tokens, n as int, i as int),
            forall|j: int| n <= j < i && j < tokens.len() ==> trial_split(
                #[trigger] tokens[j],
                sep,
            ).is_none(),
        decreases parts.len() - i,
    {
        let token = parts[i];
        assert(token@ == tokens[i as int]);
        match split_token(token, sep) {
            Some((base, pid)) => {
                if i != n {
                    command.append(" ");
                }
                command.append(base);
                proof {
                    lemma_first_split_is(tokens, sep, n as int, i as int);
                }
                return Ok((command, pid, i));
            },
            None => {
                command.append(" ");
                command.append(token);
            },
        }
        i = i + 1;
    }
    proof {
        if n <= tokens.len() {
            lemma_first_split_is(tokens, sep, n as int, tokens.len() as int);
        }
    }
    Err(TraceError::MissingPid)
}

/// Reads a command and its pid from the `comm=… pid=…` fields that start
/// at `position`. `comm` is the key of the command and `id` that of the
/// pid.
pub fn parse_named_args(parts: &Vec<&str>, position: usize, comm: &str, id: &str) -> (r: Result<
    (String, u32, usize),
    TraceError,
>)
    ensures
        match r {
            Ok((command, pid, next)) => named_args(
                token_views(parts@),
                position as int,
                comm@,
                id@,
            ) == Ok::<(Seq<char>, u32, int), TraceError>((command@, pid, next as int)),
            Err(e) => named_args(token_views(parts@), position as int, comm@, id@) == Err::<
                (Seq<char>, u32, int),
                TraceError,
            >(e),
        },
        r matches Ok((_, _, next)) ==> position < next < parts.len(),
{
    let ghost tokens = token_views(parts@);
    if position >= parts.len() {
        return Err(TraceError::MissingField);
    }
    let first = parts[position];
    let first_chars = str_chars(first);
    let skip = key_length(&first_chars, comm);
    let mut command = String::from_str(first.substring_char(skip, first_chars.len()));
    proof {
        reveal_strlit(" ");
        assert(" "@ =~= seq![' ']);
        assert(first@ == tokens[position as int]);
        assert(first@.subrange(skip as int, first@.len() as int) =~= first@.skip(skip as int));
    }
    let mut i: usize = position + 1;
    while i < parts.len()
        invariant
            position < i <= parts.len(),
            tokens == token_views(parts@),
            " "@ == seq![' '],
            command@ == strip_key(tokens[position as int], comm@) + spaced(
                tokens,
                position + 1,
                i as int,
            ),
            forall|j: int| position < j < i ==> !id@.is_prefix_of(#[trigger] tokens[j]),
        decreases parts.len() - i,
    {
        let token = parts[i];
        assert(token@ == tokens[i as int]);
        let chars = str_chars(token);
        if starts_with(&chars, id) {
            proof {
                lemma_first_keyed_is(tokens, id@, position + 1, i as int);
            }
            let skip_id = key_length(&chars, id);
            return match read_u32(&chars, skip_id) {
                Some(pid) => Ok((command, pid, i)),
                None => Err(TraceError::InvalidNumber),
            };
        }
        command.append(" ");
        command.append(token);
        proof {
            assert(spaced(tokens, position + 1, i + 1) =~= spaced(tokens, position + 1, i as int)
                + seq![' '] + tokens[i as int]);
        }
        i = i + 1;
    }
    proof {
        lemma_first_keyed_is(tokens, id@, position + 1, tokens.len() as int);
    }
    Err(TraceError::MissingPid)
}

/// The event of the kind `name` whose fields start at `index`, decoded on
/// the CPU `cpu` against the wake-state table `table`. A name that is none
/// of the known events is not an error: it decodes to `NotSupported` and
/// leaves the table alone.
pub open spec fn decode_event(
    tokens: Seq<Seq<char>>,
    cpu: u32,
    table: Map<u32, Wstate>,
    name: Seq<char>,
    index: int,
) -> Decoded {
    if name == "sched_waking"@ {
        decode_waking(tokens, cpu, table, index)
    } else if name == "sched_wake_idle_without_ipi"@ {
        keeping(decode_wake_idle(tokens, index), table)
    } else if name == "sched_wakeup"@ {
        decode_wakeup(tokens, table, index)
    } else if name == "sched_wakeup_new"@ {
        decode_wakeup_new(tokens, table, index)
    } else if name == "sched_migrate_task"@ {
        keeping(decode_migrate(tokens, table, index), table)
    } else if name == "sched_switch"@ {
        keeping(decode_switch(tokens, index), table)
    } else if name == "sched_process_free"@ {
        keeping(decode_process_free(tokens, index), table)
    } else if name == "sched_process_exec"@ {
        keeping(decode_process_exec(tokens, index), table)
    } else if name == "sched_process_fork"@ {
        decode_process_fork(tokens, cpu, table, index)
    } else if name == "sched_process_wait"@ {
        keeping(decode_process_wait(tokens, index), table)
    } else if name == "sched_process_exit"@ {
        keeping(decode_process_exit(tokens, index), table)
    } else if name == "sched_swap_numa"@ {
        decode_swap_numa(tokens, table, index)
    } else if name == "sched_stick_numa"@ {
        keeping(decode_stick_numa(tokens, index), table)
    } else if name == "sched_move_numa"@ {
        decode_move_numa(tokens, table, index)
    } else {
        Ok((EventsView::NotSupported, table))
    }
}

/// What decoding one line gives: the action and the wake-state table after
/// it, or the error that stops the scan.
pub type DecodedLine = Result<(ActionView, Map<u32, Wstate>), TraceError>;

/// The start of a line: the command and the pid of the task that was
/// running, the CPU, and the position of the token that held the pid.
///
/// The command and the pid are joined by `-` and read by trial split. The
/// next token is the CPU, in square brackets.
pub open spec fn line_header(tokens: Seq<Seq<char>>) -> Result<
    (Seq<char>, u32, u32, int),
    TraceError,
> {
    match command_and_pid(tokens, '-', 0) {
        Err(e) => Err(e),
        Ok((process, pid, k)) => if k + 1 >= tokens.len() {
            Err(TraceError::MissingField)
        } else {
            match parse_u32(without_brackets(tokens[k + 1])) {
                None => Err(TraceError::InvalidNumber),
                Some(cpu) => Ok((process, pid, cpu, k)),
            }
        },
    }
}

/// The action that the tokens of one line spell, decoded against the
/// wake-state table `table`.
///
/// After the start of the line come the timestamp and the name of the
/// event, each with one closing character (a colon), and then the fields
/// of the event.
pub open spec fn decode_line(tokens: Seq<Seq<char>>, table: Map<u32, Wstate>) -> DecodedLine {
    match line_header(tokens) {
        Err(e) => Err(e),
        Ok((process, pid, cpu, k)) => if k + 2 >= tokens.len() {
            Err(TraceError::MissingField)
        } else {
            match parse_timestamp(without_last(tokens[k + 2])) {
                None => Err(TraceError::InvalidNumber),
                Some(timestamp) => if k + 3 >= tokens.len() {
                    Err(TraceError::MissingField)
                } else {
                    match decode_event(tokens, cpu, table, without_last(tokens[k + 3]), k + 4) {
                        Err(e) => Err(e),
                        Ok((event, after)) => Ok(
                            (ActionView { process, pid, cpu, timestamp, event }, after),
                        ),
                    }
                },
            }
        },
    }
}

/// Decodes the event named `event_type` whose fields start at `index`,
/// for a line of the CPU `process_cpu`, and brings the wake-state table up
/// to date. An error leaves the table as it was.
pub fn get_event(
    part: &Vec<&str>,
    process_cpu: u32,
    process_state: &mut HashMap<u32, Wstate>,
    event_type: &str,
    index: usize,
) -> (r: Result<Events, TraceError>)
    ensures
        decoded_as(
            r,
            old(process_state)@,
            final(process_state)@,
            decode_event(
                token_views(part@),
                process_cpu,
                old(process_state)@,
                event_type@,
                index as int,
            ),
        ),
{
    let name = str_chars(event_type);
    if same_text(&name, "sched_waking") {
        read_waking(part, process_cpu, process_state, index)
    } else if same_text(&name, "sched_wake_idle_without_ipi") {
        read_wake_idle(part, index)
    } else if same_text(&name, "sched_wakeup") {
        read_wakeup(part, process_state, index)
    } else if same_text(&name, "sched_wakeup_new") {
        read_wakeup_new(part, process_state, index)
    } else if same_text(&name, "sched_migrate_task") {
        read_migrate(part, process_state, index)
    } else if same_text(&name, "sched_switch") {
        read_switch(part, index)
    } else if same_text(&name, "sched_process_free") {
        read_process_free(part, index)
    } else if same_text(&name, "sched_process_exec") {
        read_process_exec(part, index)
    } else if same_text(&name, "sched_process_fork") {
        read_process_fork(part, process_cpu, process_state, index)
    } else if same_text(&name, "sched_process_wait") {
        read_process_wait(part, index)
    } else if same_text(&name, "sched_process_exit") {
        read_process_exit(part, index)
    } else if same_text(&name, "sched_swap_numa") {
        read_swap_numa(part, process_state, index)
    } else if same_text(&name, "sched_stick_numa") {
        read_stick_numa(part, index)
    } else if same_text(&name, "sched_move_numa") {
        read_move_numa(part, process_state, index)
    } else {
        Ok(Events::NotSupported)
    }
}

/// Decodes the tokens of one line into an action and brings the
/// wake-state table up to date. An error leaves the table as it was.
pub fn get_action(part: &Vec<&str>, process_state: &mut HashMap<u32, Wstate>) -> (r: Result<
    Action,
    TraceError,
>)
    ensures
        match r {
            Ok(action) => decode_line(token_views(part@), old(process_state)@) == Ok::<
                (ActionView, Map<u32, Wstate>),
                TraceError,
            >((action@, final(process_state)@)),
            Err(e) => decode_line(token_views(part@), old(process_state)@) == Err::<
                (ActionView, Map<u32, Wstate>),
                TraceError,
            >(e) && final(process_state)@ == old(process_state)@,
        },
{
    let ghost tokens = token_views(part@);
    let (process, pid, k) = match extract_command_and_pid(part, '-', 0) {
        Ok(found) => found,
        Err(e) => {
            return Err(e);
        },
    };
    if part.len() - k <= 1 {
        return Err(TraceError::MissingField);
    }
    let cpu_chars = drop_brackets(&token_chars(part, k + 1));
    proof {
        assert(cpu_chars@.skip(0) =~= cpu_chars@);
    }
    let cpu = match read_u32(&cpu_chars, 0) {
        Some(v) => v,
        None => {
            return Err(TraceError::InvalidNumber);
        },
    };
    if part.len() - k <= 2 {
        return Err(TraceError::MissingField);
    }
    let time_chars = token_chars(part, k + 2);
    let time_end = if time_chars.len() > 0 {
        time_chars.len() - 1
    } else {
        0
    };
    proof {
        assert(time_chars@.subrange(0, time_end as int) =~= without_last(tokens[k + 2]));
    }
    let timestamp = match read_timestamp(&time_chars, 0, time_end) {
        Some(v) => v,
        None => {
            return Err(TraceError::InvalidNumber);
        },
    };
    if part.len() - k <= 3 {
        return Err(TraceError::MissingField);
    }
    let name_token = part[k + 3];
    let name_len = name_token.unicode_len();
    let name_end = if name_len > 0 {
        name_len - 1
    } else {
        0
    };
    let event_type = name_token.substring_char(0, name_end);
    proof {
        assert(name_token@ == tokens[k + 3]);
        assert(event_type@ =~= without_last(tokens[k + 3]));
    }
    let fields = if part.len() - k > 4 {
        k + 4
    } else {
        part.len()
    };
    proof {
        lemma_decode_event_past_end(
            tokens,
            cpu,
            process_state@,
            event_type@,
            k + 4,
            fields as int,
        );
    }
    let event = match get_event(part, cpu, process_state, event_type, fields) {
        Ok(event) => event,
        Err(e) => {
            return Err(e);
        },
    };
    Ok(Action { process, pid, cpu, timestamp, event })
}

/// Every position at or past the end of a line is the same to the decoder
/// of events: there is no token there, and none after it.
pub proof fn lemma_decode_event_past_end(
    tokens: Seq<Seq<char>>,
    cpu: u32,
    table: Map<u32, Wstate>,
    name: Seq<char>,
    a: int,
    b: int,
)
    requires
        a == b || (a >= tokens.len() && b >= tokens.len()),
    ensures
        decode_event(tokens, cpu, table, name, a) == decode_event(tokens, cpu, table, name, b),
{
    if a != b {
        assert(first_split(tokens, ':', a) == tokens.len());
        assert(first_split(tokens, ':', b) == tokens.len());
    }
}

/// What one line of a trace gives when it is decoded against the
/// wake-state table `table`: nothing where the line has fewer than three
/// tokens, and else the action that its tokens spell and the table after
/// it, or the error that stops the scan.
pub open spec fn decode_text(line: Seq<char>, table: Map<u32, Wstate>) -> Result<
    Option<(ActionView, Map<u32, Wstate>)>,
    TraceError,
> {
    let tokens = split_whitespace(line);
    if tokens.len() <= 2 {
        Ok(None)
    } else {
        match decode_line(tokens, table) {
            Ok(decoded) => Ok(Some(decoded)),
            Err(e) => Err(e),
        }
    }
}

/// Decodes one line of a trace: cuts it into tokens, passes over a line of
/// fewer than three, and else decodes the tokens into an action and brings
/// the wake-state table up to date. A line that is passed over and a line
/// that does not decode leave the table as it was.
pub fn get_line_action(line: &str, process_state: &mut HashMap<u32, Wstate>) -> (r: Result<
    Option<Action>,
    TraceError,
>)
    ensures
        match r {
            Ok(Some(action)) => decode_text(line@, old(process_state)@) == Ok::<
                Option<(ActionView, Map<u32, Wstate>)>,
                TraceError,
            >(Some((action@, final(process_state)@))),
            Ok(None) => decode_text(line@, old(process_state)@) == Ok::<
                Option<(ActionView, Map<u32, Wstate>)>,
                TraceError,
            >(None) && final(process_state)@ == old(process_state)@,
            Err(e) => decode_text(line@, old(process_state)@) == Err::<
                Option<(ActionView, Map<u32, Wstate>)>,
                TraceError,
            >(e) && final(process_state)@ == old(process_state)@,
        },
{
    let part = split_line(line);
    if part.len() > 2 {
        match get_action(&part, process_state) {
            Ok(action) => Ok(Some(action)),
            Err(e) => Err(e),
        }
    } else {
        Ok(None)
    }
}

/// The number of CPUs that the header of a trace declares. The header is
/// the first line of the trace, and its first token must be
/// `cpus=<count>`. A trace without a first line has no header.
pub open spec fn header_cpu_count(header: Option<Seq<char>>) -> Result<u32, TraceError> {
    match header {
        None => Err(TraceError::MissingHeader),
        Some(line) => {
            let tokens = split_whitespace(line);
            if tokens.len() == 0 || !"cpus="@.is_prefix_of(tokens[0]) {
                Err(TraceError::InvalidHeader)
            } else {
                match parse_u32(strip_key(tokens[0], "cpus="@)) {
                    Some(count) => Ok(count),
                    None => Err(TraceError::InvalidNumber),
                }
            }
        },
    }
}

/// The characters of a line that may be missing.
pub open spec fn line_view(line: Option<&str>) -> Option<Seq<char>> {
    match line {
        Some(text) => Some(text@),
        None => None,
    }
}

/// A cursor over one trace.
///
/// The lines of the trace are handed to it one at a time, in their order,
/// by whoever reads the input; the cursor holds what the lines read so far
/// have left: the wake-state table and the timestamps. The table is the
/// cursor's own: callers get copies of it.
pub struct TraceParser {
    /// The number of CPUs that the header declares.
    pub cpu_count: u32,
    /// The timestamp that the timeline starts at: that of the first event
    /// read, unless it is set from outside.
    pub first_timestamp: Option<Timestamp>,
    /// The timestamp of the last event read.
    pub last_timestamp: Option<Timestamp>,
    process_state: HashMap<u32, Wstate>,
}

/// A cursor as contracts see it.
#[verifier::ext_equal]
pub struct TraceParserView {
    pub cpu_count: u32,
    pub first_timestamp: Option<Timestamp>,
    pub last_timestamp: Option<Timestamp>,
    /// The wake-state table after the events read so far.
    pub states: Map<u32, Wstate>,
}

impl View for TraceParser {
    type V = TraceParserView;

    closed spec fn view(&self) -> TraceParserView {
        TraceParserView {
            cpu_count: self.cpu_count,
            first_timestamp: self.first_timestamp,
            last_timestamp: self.last_timestamp,
            states: self.process_state@,
        }
    }
}

/// The cursor at the start of a scan of a trace whose header declares
/// `cpu_count` CPUs: with an empty table and no timestamps.
pub open spec fn start_of_scan(cpu_count: u32) -> TraceParserView {
    TraceParserView {
        cpu_count,
        first_timestamp: None,
        last_timestamp: None,
        states: Map::empty(),
    }
}

/// One step of a scan, over the line `line`: the cursor after it, and what
/// the step found.
///
/// A line of fewer than three tokens holds no event: the step finds
/// nothing and the cursor stays as it is. Else the line is decoded against
/// the table. Where that succeeds, the cursor takes the new table and
/// notes the timestamp as the last one, and as the first one where there
/// was none. Where it fails, the cursor stays as it is.
pub open spec fn step(c: TraceParserView, line: Seq<char>) -> (
    TraceParserView,
    Result<Option<ActionView>, TraceError>,
) {
    match decode_text(line, c.states) {
        Ok(Some((action, table))) => (
            TraceParserView {
                states: table,
                first_timestamp: if c.first_timestamp.is_some() {
                    c.first_timestamp
                } else {
                    Some(action.timestamp)
                },
                last_timestamp: Some(action.timestamp),
                ..c
            },
            Ok(Some(action)),
        ),
        Ok(None) => (c, Ok(None)),
        Err(e) => (c, Err(e)),
    }
}

/// What one step of the cursor hands out: the action, a copy of the
/// wake-state table after it, and the timestamp that the timeline starts
/// at.
pub type Step = (Action, HashMap<u32, Wstate>, Option<Timestamp>);

impl TraceParser {
    /// Starts a scan of a trace with the first line `header`, which must
    /// be there and declare the number of CPUs.
    pub fn new(header: Option<&str>) -> (r: Result<TraceParser, TraceError>)
        ensures
            match r {
                Ok(parser) => {
                    &&& header_cpu_count(line_view(header)) == Ok::<u32, TraceError>(
                        parser@.cpu_count,
                    )
                    &&& parser@ == start_of_scan(parser@.cpu_count)
                },
                Err(e) => header_cpu_count(line_view(header)) == Err::<u32, TraceError>(e),
            },
    {
        let line = match header {
            Some(line) => line,
            None => {
                return Err(TraceError::MissingHeader);
            },
        };
        let part = split_line(line);
        if part.len() == 0 {
            return Err(TraceError::InvalidHeader);
        }
        let chars = token_chars(&part, 0);
        if !starts_with(&chars, "cpus=") {
            return Err(TraceError::InvalidHeader);
        }
        let skip = key_length(&chars, "cpus=");
        let cpu_count = match read_u32(&chars, skip) {
            Some(count) => count,
            None => {
                return Err(TraceError::InvalidNumber);
            },
        };
        Ok(
            TraceParser {
                cpu_count,
                first_timestamp: None,
                last_timestamp: None,
                process_state: HashMap::new(),
            },
        )
    }

    /// The number of CPUs that the header declares.
    pub fn cpu_count(&self) -> (count: u32)
        ensures
            count == self@.cpu_count,
    {
        self.cpu_count
    }

    /// The timestamp that the timeline starts at.
    pub fn first_timestamp(&self) -> (first: Option<Timestamp>)
        ensures
            first == self@.first_timestamp,
    {
        self.first_timestamp
    }

    /// The timestamp of the last event read.
    pub fn last_timestamp(&self) -> (last: Option<Timestamp>)
        ensures
            last == self@.last_timestamp,
    {
        self.last_timestamp
    }

    /// Makes `timestamp` the start of the timeline, whatever it was.
    pub fn start_at(&mut self, timestamp: Timestamp)
        ensures
            final(self)@ == (TraceParserView { first_timestamp: Some(timestamp), ..old(self)@ }),
    {
        self.first_timestamp = Some(timestamp);
    }

    /// The wake-state table after the events read so far.
    pub fn process_state(&self) -> (table: &HashMap<u32, Wstate>)
        ensures
            table@ == self@.states,
    {
        &self.process_state
    }

    /// Takes in the next line of the trace: one step of the scan. Where the
    /// line holds an event, the step hands out the action, a copy of the
    /// table after it, and the start of the timeline.
    pub fn next_action(&mut self, line: &str) -> (r: Result<Option<Step>, TraceError>)
        ensures
            final(self)@ == step(old(self)@, line@).0,
            match r {
                Ok(Some((action, snapshot, first))) => {
                    &&& step(old(self)@, line@).1 == Ok::<Option<ActionView>, TraceError>(
                        Some(action@),
                    )
                    &&& snapshot@ == final(self)@.states
                    &&& first == final(self)@.first_timestamp
                },
                Ok(None) => step(old(self)@, line@).1 == Ok::<Option<ActionView>, TraceError>(
                    None,
                ),
                Err(e) => step(old(self)@, line@).1 == Err::<Option<ActionView>, TraceError>(e),
            },
    {
        match get_line_action(line, &mut self.process_state) {
            Err(e) => Err(e),
            Ok(None) => Ok(None),
            Ok(Some(action)) => {
                if self.first_timestamp.is_none() {
                    self.first_timestamp = Some(action.timestamp);
                }
                self.last_timestamp = Some(action.timestamp);
                let snapshot = self.process_state.clone();
                let first = self.first_timestamp;
                Ok(Some((action, snapshot, first)))
            },
        }
    }
}

} // verus!
