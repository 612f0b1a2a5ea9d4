use std::collections::HashMap;

use tracing_tool::graph::decimal::Timestamp;
use tracing_tool::graph::parser::{get_action, Action, Events, TraceError, Wstate};
use tracing_tool::graph::text::split_line;

fn decode(line: &str, table: &mut HashMap<u32, Wstate>) -> Result<Action, TraceError> {
    let parts = split_line(line);
    get_action(&parts, table)
}

fn at(seconds: u64, nanos: u32) -> Timestamp {
    Timestamp { seconds, nanos }
}

#[test]
fn header_fields_of_a_plain_line() {
    let mut table = HashMap::new();
    let action = decode(
        "bash-1234 [003] 5.000001: sched_wake_idle_without_ipi: cpu=7",
        &mut table,
    )
    .unwrap();
    assert_eq!(action.process, "bash");
    assert_eq!(action.pid, 1234);
    assert_eq!(action.cpu, 3);
    assert_eq!(action.timestamp, at(5, 1_000));
    assert_eq!(action.event, Events::SchedWakeIdleNoIpi { cpu: 7 });
    assert!(table.is_empty());
}

#[test]
fn command_with_separator_keeps_pid_and_cpu() {
    let mut table = HashMap::new();
    let action = decode(
        "my-proc-name-4321 [2] 10.500000: sched_wakeup: comm=other proc:9 [120] CPU:002",
        &mut table,
    )
    .unwrap();
    assert_eq!(action.process, "my-proc-name");
    assert_eq!(action.pid, 4321);
    assert_eq!(action.cpu, 2);
    assert_eq!(action.timestamp, at(10, 500_000_000));
    assert_eq!(
        action.event,
        Events::SchedWakeup { command: String::from(" comm=other proc"), pid: 9, prev_cpu: None, cpu: 2 }
    );
    assert_eq!(table.get(&9), Some(&Wstate::Woken));
}

#[test]
fn command_with_white_space_keeps_pid_and_cpu() {
    let mut table = HashMap::new();
    let action = decode(
        "Web Content-77 [011] 1.25: sched_process_exit: comm=Web Content pid=77 prio=120",
        &mut table,
    )
    .unwrap();
    assert_eq!(action.process, " Web Content");
    assert_eq!(action.pid, 77);
    assert_eq!(action.cpu, 11);
    assert_eq!(action.timestamp, at(1, 250_000_000));
    assert_eq!(
        action.event,
        Events::SchedProcessExit { command: String::from("Web Content"), pid: 77 }
    );
}

#[test]
fn same_line_gives_same_action_on_separate_tables() {
    let line = "kworker/1:2-88 [001] 3.000100: sched_waking: comm=sshd pid=10 prio=120 target_cpu=002";
    let mut first = HashMap::new();
    let mut second = HashMap::new();
    let a = decode(line, &mut first).unwrap();
    let b = decode(line, &mut second).unwrap();
    assert_eq!(a, b);
    assert_eq!(first, second);
    assert_eq!(first.get(&10), Some(&Wstate::Waking(1, 2)));
}

#[test]
fn waking_sets_the_state() {
    let mut table = HashMap::new();
    let action = decode(
        "swapper-0 [001] 100.000000: sched_waking: comm=my task pid=10 prio=120 target_cpu=002",
        &mut table,
    )
    .unwrap();
    assert_eq!(
        action.event,
        Events::SchedWaking { command: String::from("my task"), pid: 10, target_cpu: 2 }
    );
    assert_eq!(table.len(), 1);
    assert_eq!(table.get(&10), Some(&Wstate::Waking(1, 2)));
}

#[test]
fn wakeup_reads_the_waking_cpu_and_sets_woken() {
    let mut table = HashMap::new();
    table.insert(10, Wstate::Waking(1, 2));
    let action =
        decode("swapper-0 [002] 100.000010: sched_wakeup: sshd:10 [120] CPU:002", &mut table)
            .unwrap();
    assert_eq!(
        action.event,
        Events::SchedWakeup { command: String::from("sshd"), pid: 10, prev_cpu: Some(1), cpu: 2 }
    );
    assert_eq!(table.get(&10), Some(&Wstate::Woken));
}

#[test]
fn wakeup_of_a_woken_task_has_no_previous_cpu() {
    let mut table = HashMap::new();
    table.insert(10, Wstate::Woken);
    let action =
        decode("swapper-0 [002] 100.000010: sched_wakeup: sshd:10 [120] CPU:002", &mut table)
            .unwrap();
    assert_eq!(
        action.event,
        Events::SchedWakeup { command: String::from("sshd"), pid: 10, prev_cpu: None, cpu: 2 }
    );
}

#[test]
fn fork_seeds_the_child_and_wakeup_new_consumes_it() {
    let mut table = HashMap::new();
    let fork = decode(
        "bash-50 [004] 7.5: sched_process_fork: comm=bash pid=50 child_comm=bash child_pid=51",
        &mut table,
    )
    .unwrap();
    assert_eq!(
        fork.event,
        Events::SchedProcessFork {
            command: String::from("bash"),
            pid: 50,
            child_command: String::from("bash"),
            child_pid: 51
        }
    );
    assert_eq!(table.get(&51), Some(&Wstate::Waking(4, 4)));
    let woken =
        decode("bash-50 [004] 7.6: sched_wakeup_new: bash:51 [120] CPU:006", &mut table).unwrap();
    assert_eq!(
        woken.event,
        Events::SchedWakeupNew { command: String::from("bash"), pid: 51, parent_cpu: 4, cpu: 6 }
    );
    assert_eq!(table.get(&51), Some(&Wstate::Woken));
}

#[test]
fn wakeup_new_without_waking_is_an_error() {
    let mut table = HashMap::new();
    let r = decode("bash-50 [004] 7.6: sched_wakeup_new: bash:51 [120] CPU:006", &mut table);
    assert_eq!(r, Err(TraceError::WakeupWithoutWaking));
    assert!(table.is_empty());
    table.insert(51, Wstate::Woken);
    let r = decode("bash-50 [004] 7.6: sched_wakeup_new: bash:51 [120] CPU:006", &mut table);
    assert_eq!(r, Err(TraceError::WakeupWithoutWaking));
    assert_eq!(table.get(&51), Some(&Wstate::Woken));
}

#[test]
fn migrate_carries_the_state_it_is_seen_under() {
    let line = "migration/1-20 [001] 9.0: sched_migrate_task: comm=sshd pid=10 prio=120 orig_cpu=1 dest_cpu=2";
    let mut table = HashMap::new();
    let unknown = decode(line, &mut table).unwrap();
    assert_eq!(
        unknown.event,
        Events::SchedMigrateTask {
            command: String::from("sshd"),
            pid: 10,
            orig_cpu: 1,
            dest_cpu: 2,
            state: None
        }
    );
    assert!(table.is_empty());
    table.insert(11, Wstate::Woken);
    match decode(line, &mut table).unwrap().event {
        Events::SchedMigrateTask { state, .. } => assert_eq!(state, None),
        other => panic!("{:?}", other),
    }
    table.insert(10, Wstate::Waking(1, 2));
    match decode(line, &mut table).unwrap().event {
        Events::SchedMigrateTask { state, .. } => assert_eq!(state, Some(Wstate::Waking(1, 2))),
        other => panic!("{:?}", other),
    }
    table.insert(10, Wstate::Woken);
    match decode(line, &mut table).unwrap().event {
        Events::SchedMigrateTask { state, .. } => assert_eq!(state, Some(Wstate::Woken)),
        other => panic!("{:?}", other),
    }
    table.insert(10, Wstate::Numa(1, 2));
    match decode(line, &mut table).unwrap().event {
        Events::SchedMigrateTask { state, .. } => assert_eq!(state, Some(Wstate::Numa(1, 2))),
        other => panic!("{:?}", other),
    }
    table.insert(10, Wstate::Numa(1, 3));
    match decode(line, &mut table).unwrap().event {
        Events::SchedMigrateTask { state, .. } => assert_eq!(state, Some(Wstate::Woken)),
        other => panic!("{:?}", other),
    }
    table.insert(10, Wstate::Numa(-1, 2));
    match decode(line, &mut table).unwrap().event {
        Events::SchedMigrateTask { state, .. } => assert_eq!(state, Some(Wstate::Woken)),
        other => panic!("{:?}", other),
    }
    assert_eq!(table.get(&10), Some(&Wstate::Numa(-1, 2)));
}

#[test]
fn switch_reads_both_tasks() {
    let mut table = HashMap::new();
    let action = decode(
        "bash-1234 [000] 2.000000: sched_switch: bash:1234 [120] S ==> Web Content:5678 [120]",
        &mut table,
    )
    .unwrap();
    assert_eq!(
        action.event,
        Events::SchedSwitch {
            old_command: String::from("bash"),
            old_pid: 1234,
            state: String::from("S"),
            new_command: String::from(" Web Content"),
            new_pid: 5678
        }
    );
    assert!(table.is_empty());
}

#[test]
fn process_lifetime_events() {
    let mut table = HashMap::new();
    let free = decode("a-1 [0] 1.0: sched_process_free: comm=cat pid=9 prio=120", &mut table).unwrap();
    assert_eq!(free.event, Events::SchedProcessFree { command: String::from("cat"), pid: 9 });
    let wait = decode("a-1 [0] 1.0: sched_process_wait: comm=cat pid=0 prio=120", &mut table).unwrap();
    assert_eq!(wait.event, Events::SchedProcessWait { command: String::from("cat"), pid: 0 });
    let exec = decode(
        "a-1 [0] 1.0: sched_process_exec: filename=/usr/bin/cat pid=9 old_pid=8",
        &mut table,
    )
    .unwrap();
    assert_eq!(
        exec.event,
        Events::SchedProcessExec { filename: String::from("/usr/bin/cat"), pid: 9, old_pid: 8 }
    );
    assert!(table.is_empty());
}

#[test]
fn numa_events() {
    let mut table = HashMap::new();
    let swap = decode(
        "a-1 [0] 1.0: sched_swap_numa: src_pid=7 src_tgid=7 src_ngid=0 src_cpu=5 src_nid=0 dst_pid=8 dst_tgid=8 dst_ngid=0 dst_cpu=9 dst_nid=1",
        &mut table,
    )
    .unwrap();
    assert_eq!(swap.event, Events::SchedSwapNuma { src_pid: 7, src_cpu: 5, dst_pid: 8, dst_cpu: 9 });
    assert_eq!(table.get(&7), Some(&Wstate::Numa(5, 9)));
    assert_eq!(table.get(&8), Some(&Wstate::Numa(9, 5)));
    let stick = decode(
        "a-1 [0] 1.0: sched_stick_numa: src_pid=3 src_tgid=3 src_ngid=0 src_cpu=1 src_nid=0 dst_pid=0 dst_tgid=0 dst_ngid=0 dst_cpu=-1 dst_nid=-1",
        &mut table,
    )
    .unwrap();
    assert_eq!(stick.event, Events::SchedStickNuma { src_pid: 3, src_cpu: 1, dst_pid: 0, dst_cpu: -1 });
    assert_eq!(table.len(), 2);
    let moved = decode(
        "a-1 [0] 1.0: sched_move_numa: pid=4 tgid=4 ngid=0 src_cpu=2 src_nid=0 dst_cpu=6 dst_nid=1",
        &mut table,
    )
    .unwrap();
    assert_eq!(moved.event, Events::SchedMoveNuma { src_pid: 4, src_cpu: 2, dst_cpu: 6 });
    assert_eq!(table.get(&4), Some(&Wstate::Numa(2, 6)));
}

#[test]
fn swap_of_a_task_with_itself_keeps_the_destination_entry() {
    let mut table = HashMap::new();
    decode(
        "a-1 [0] 1.0: sched_swap_numa: src_pid=7 src_tgid=7 src_ngid=0 src_cpu=5 src_nid=0 dst_pid=7 dst_tgid=7 dst_ngid=0 dst_cpu=9 dst_nid=1",
        &mut table,
    )
    .unwrap();
    assert_eq!(table.len(), 1);
    assert_eq!(table.get(&7), Some(&Wstate::Numa(9, 5)));
}

#[test]
fn unknown_event_is_not_supported_and_not_an_error() {
    let mut table = HashMap::new();
    table.insert(1, Wstate::Woken);
    let action = decode("a-1 [0] 1.0: irq_handler_entry: irq=1 name=x", &mut table).unwrap();
    assert_eq!(action.event, Events::NotSupported);
    assert_eq!(table.len(), 1);
    let bare = decode("a-1 [0] 1.0: something:", &mut table).unwrap();
    assert_eq!(bare.event, Events::NotSupported);
}

#[test]
fn line_without_pid_is_an_error() {
    let mut table = HashMap::new();
    assert_eq!(decode("no pid here at all", &mut table), Err(TraceError::MissingPid));
    assert_eq!(decode("", &mut table), Err(TraceError::MissingPid));
    assert_eq!(
        decode("a-1 [0] 1.0: sched_wakeup: nothing to split", &mut table),
        Err(TraceError::MissingPid)
    );
    assert_eq!(
        decode("a-1 [0] 1.0: sched_waking: comm=x prio=120 target_cpu=1", &mut table),
        Err(TraceError::MissingPid)
    );
}

#[test]
fn short_line_is_an_error() {
    let mut table = HashMap::new();
    assert_eq!(decode("a-1", &mut table), Err(TraceError::MissingField));
    assert_eq!(decode("a-1 [0]", &mut table), Err(TraceError::MissingField));
    assert_eq!(decode("a-1 [0] 1.0:", &mut table), Err(TraceError::MissingField));
    assert_eq!(
        decode("a-1 [0] 1.0: sched_waking: comm=x pid=3 prio=120", &mut table),
        Err(TraceError::MissingField)
    );
    assert_eq!(decode("a-1 [0] 1.0: sched_waking:", &mut table), Err(TraceError::MissingField));
    assert!(table.is_empty());
}

#[test]
fn bad_number_is_an_error() {
    let mut table = HashMap::new();
    assert_eq!(decode("a-1 [x] 1.0: e: f", &mut table), Err(TraceError::InvalidNumber));
    assert_eq!(decode("a-1 [0] 1.0.0: e: f", &mut table), Err(TraceError::InvalidNumber));
    assert_eq!(decode("a-1 [0] now: e: f", &mut table), Err(TraceError::InvalidNumber));
    assert_eq!(
        decode("a-1 [0] 1.0: sched_waking: comm=x pid=3 prio=120 target_cpu=two", &mut table),
        Err(TraceError::InvalidNumber)
    );
    assert_eq!(
        decode("a-1 [0] 1.0: sched_waking: comm=x pid=4294967296 prio=120 target_cpu=2", &mut table),
        Err(TraceError::InvalidNumber)
    );
    assert_eq!(
        decode("a-1 [0] 1.0: sched_wake_idle_without_ipi: cpu=-1", &mut table),
        Err(TraceError::InvalidNumber)
    );
    assert!(table.is_empty());
}

#[test]
fn brackets_are_dropped_wherever_they_stand() {
    let mut table = HashMap::new();
    let action = decode("a-1 [[0]1]] 1.0: e: f", &mut table).unwrap();
    assert_eq!(action.cpu, 1);
    let action = decode("a-1 12 1.0: e: f", &mut table).unwrap();
    assert_eq!(action.cpu, 12);
}

#[test]
fn key_is_stripped_only_in_front() {
    let mut table = HashMap::new();
    let action = decode("a-1 [0] 1.0: sched_wake_idle_without_ipi: 5", &mut table).unwrap();
    assert_eq!(action.event, Events::SchedWakeIdleNoIpi { cpu: 5 });
    assert_eq!(
        decode("a-1 [0] 1.0: sched_wake_idle_without_ipi: 5cpu=", &mut table),
        Err(TraceError::InvalidNumber)
    );
    let action =
        decode("a-1 [0] 1.0: sched_process_exit: comm=xcomm=y pid=3 prio=1", &mut table).unwrap();
    assert_eq!(action.event, Events::SchedProcessExit { command: String::from("xcomm=y"), pid: 3 });
}

#[test]
fn commands_beyond_ascii_are_kept_whole() {
    let mut table = HashMap::new();
    let action = decode(
        "Wëb Cöntent-77 [1] 1.0: sched_process_exit: comm=Wëb Cöntent→x pid=77 prio=120",
        &mut table,
    )
    .unwrap();
    assert_eq!(action.process, " Wëb Cöntent");
    assert_eq!(action.pid, 77);
    assert_eq!(
        action.event,
        Events::SchedProcessExit { command: String::from("Wëb Cöntent→x"), pid: 77 }
    );
    let action =
        decode("日本-5 [1] 1.0: sched_switch: 日本:5 [120] R ==> ß:6 [120]", &mut table).unwrap();
    assert_eq!(action.process, "日本");
    assert_eq!(
        action.event,
        Events::SchedSwitch {
            old_command: String::from("日本"),
            old_pid: 5,
            state: String::from("R"),
            new_command: String::from("ß"),
            new_pid: 6
        }
    );
}

#[test]
fn first_token_that_splits_gives_the_pid() {
    let mut table = HashMap::new();
    let action = decode("a-1 b-2 [3] 1.0: e: f", &mut table);
    assert_eq!(action, Err(TraceError::InvalidNumber));
    let action = decode("a-1 2 3.0: b-2: [3] x", &mut table).unwrap();
    assert_eq!(action.process, "a");
    assert_eq!(action.pid, 1);
    assert_eq!(action.cpu, 2);
    let action = decode("a-x b-2 [3] 1.0: e: f", &mut table).unwrap();
    assert_eq!(action.process, " a-x b");
    assert_eq!(action.pid, 2);
    assert_eq!(action.cpu, 3);
    let action = decode("a--+7 [3] 1.0: e: f", &mut table).unwrap();
    assert_eq!(action.process, "a-");
    assert_eq!(action.pid, 7);
}

#[test]
fn closing_character_of_timestamp_and_name_is_dropped_whatever_it_is() {
    let mut table = HashMap::new();
    let action = decode("a-1 [0] 1.5; sched_wake_idle_without_ipi; cpu=4", &mut table).unwrap();
    assert_eq!(action.timestamp, at(1, 500_000_000));
    assert_eq!(action.event, Events::SchedWakeIdleNoIpi { cpu: 4 });
    let action = decode("a-1 [0] 1.5 e: f", &mut table).unwrap();
    assert_eq!(action.timestamp, at(1, 0));
    assert_eq!(decode("a-1 [0] : e: f", &mut table), Err(TraceError::InvalidNumber));
    let action = decode("a-1 [0] 1.55 sched_wake_idle_without_ipi cpu=4", &mut table).unwrap();
    assert_eq!(action.timestamp, at(1, 500_000_000));
    assert_eq!(action.event, Events::NotSupported);
}

#[test]
fn wake_table_keeps_the_latest_event_of_a_task() {
    let mut table = HashMap::new();
    for line in [
        "a-1 [4] 1.0: sched_waking: comm=x pid=10 prio=120 target_cpu=002",
        "a-1 [5] 1.1: sched_waking: comm=x pid=10 prio=120 target_cpu=003",
        "a-1 [5] 1.2: sched_move_numa: pid=10 tgid=10 ngid=0 src_cpu=3 src_nid=0 dst_cpu=6 dst_nid=1",
        "a-1 [5] 1.3: sched_waking: comm=y pid=11 prio=120 target_cpu=001",
    ] {
        decode(line, &mut table).unwrap();
    }
    assert_eq!(table.len(), 2);
    assert_eq!(table.get(&10), Some(&Wstate::Numa(3, 6)));
    assert_eq!(table.get(&11), Some(&Wstate::Waking(5, 1)));
}

#[test]
fn line_of_fewer_than_three_tokens_is_passed_over() {
    let mut table = HashMap::new();
    table.insert(3, Wstate::Woken);
    for line in ["", "   ", "one", "one two", " a-1  [0] ", "cpus=4"] {
        assert_eq!(tracing_tool::graph::parser::get_line_action(line, &mut table), Ok(None));
    }
    assert_eq!(table.len(), 1);
    let action = tracing_tool::graph::parser::get_line_action("a-1 [0] 1.0:", &mut table);
    assert_eq!(action, Err(TraceError::MissingField));
    let action = tracing_tool::graph::parser::get_line_action(
        "\ta-1 [0]   1.0: sched_wakeup: x:3 [120] CPU:001\n",
        &mut table,
    )
    .unwrap()
    .unwrap();
    assert_eq!(action.pid, 1);
    assert_eq!(
        action.event,
        Events::SchedWakeup { command: String::from("x"), pid: 3, prev_cpu: None, cpu: 1 }
    );
}
