use std::collections::HashMap;

use tracing_tool::graph::decimal::Timestamp;
use tracing_tool::graph::parser::{Action, Events, TraceError, TraceParser, Wstate};
use tracing_tool::graph::{classify_migrate_event, MigrationCause};
use tracing_tool::read_config::Machine;

type Step = (Action, HashMap<u32, Wstate>, Option<Timestamp>);

/// Hands the lines to the cursor in their order and gathers what the steps
/// find, up to the first line that does not decode.
fn feed(parser: &mut TraceParser, lines: &[&str]) -> Result<Vec<Step>, TraceError> {
    let mut found = Vec::new();
    for line in lines {
        if let Some(step) = parser.next_action(line)? {
            found.push(step);
        }
    }
    Ok(found)
}

fn four_cpus() -> Machine {
    Machine {
        cpus: 4,
        sockets: 2,
        cores_per_socket: 2,
        threads_per_core: 1,
        numa_nodes: 2,
        numa_node_ranges: vec![vec![vec![0, 1]], vec![vec![2, 3]]],
    }
}

fn at(seconds: u64, nanos: u32) -> Option<Timestamp> {
    Some(Timestamp { seconds, nanos })
}

#[test]
fn header_gives_the_cpu_count() {
    let parser = TraceParser::new(Some("cpus=4")).unwrap();
    assert_eq!(parser.cpu_count, 4);
    assert_eq!(parser.cpu_count(), 4);
    assert_eq!(parser.first_timestamp, None);
    assert_eq!(parser.last_timestamp, None);
    assert!(parser.process_state().is_empty());
    let parser = TraceParser::new(Some("  cpus=128   and more")).unwrap();
    assert_eq!(parser.cpu_count, 128);
}

#[test]
fn wrong_header_is_fatal() {
    assert_eq!(TraceParser::new(Some("foo=4")).err(), Some(TraceError::InvalidHeader));
    assert_eq!(TraceParser::new(Some("xcpus=4")).err(), Some(TraceError::InvalidHeader));
    assert_eq!(TraceParser::new(Some("4 cpus=4")).err(), Some(TraceError::InvalidHeader));
    assert_eq!(TraceParser::new(Some("")).err(), Some(TraceError::InvalidHeader));
    assert_eq!(TraceParser::new(Some("   ")).err(), Some(TraceError::InvalidHeader));
    assert_eq!(
        TraceParser::new(Some("a-1 [0] 1.0: sched_wake_idle_without_ipi: cpu=1")).err(),
        Some(TraceError::InvalidHeader)
    );
}

#[test]
fn missing_header_is_fatal() {
    assert_eq!(TraceParser::new(None).err(), Some(TraceError::MissingHeader));
}

#[test]
fn header_with_a_bad_count_is_fatal() {
    assert_eq!(TraceParser::new(Some("cpus=four")).err(), Some(TraceError::InvalidNumber));
    assert_eq!(TraceParser::new(Some("cpus=")).err(), Some(TraceError::InvalidNumber));
    assert_eq!(TraceParser::new(Some("cpus=-4")).err(), Some(TraceError::InvalidNumber));
    assert_eq!(TraceParser::new(Some("cpus=4294967296")).err(), Some(TraceError::InvalidNumber));
}

#[test]
fn short_lines_are_passed_over() {
    let mut parser = TraceParser::new(Some("cpus=4")).unwrap();
    for line in ["", "two tokens", "   ", "x"] {
        assert!(parser.next_action(line).unwrap().is_none());
    }
    assert_eq!(parser.first_timestamp, None);
    assert_eq!(parser.last_timestamp, None);
    assert!(parser.process_state().is_empty());
}

#[test]
fn steps_note_the_first_and_the_last_timestamp() {
    let mut parser = TraceParser::new(Some("cpus=4")).unwrap();
    let steps = feed(
        &mut parser,
        &[
            "",
            "two tokens",
            "a-1 [0] 1.5: sched_wake_idle_without_ipi: cpu=1",
            "   ",
            "b-2 [1] 2.5: sched_wake_idle_without_ipi: cpu=0",
            "x",
        ],
    )
    .unwrap();
    assert_eq!(steps.len(), 2);
    assert_eq!(steps[0].0.pid, 1);
    assert_eq!(steps[0].2, at(1, 500_000_000));
    assert_eq!(steps[1].0.pid, 2);
    assert_eq!(steps[1].2, at(1, 500_000_000));
    assert_eq!(parser.first_timestamp, at(1, 500_000_000));
    assert_eq!(parser.last_timestamp, at(2, 500_000_000));
    assert_eq!(parser.first_timestamp(), at(1, 500_000_000));
    assert_eq!(parser.last_timestamp(), at(2, 500_000_000));
}

#[test]
fn first_timestamp_set_from_outside_stays() {
    let mut parser = TraceParser::new(Some("cpus=4")).unwrap();
    parser.first_timestamp = at(0, 7);
    let (_, _, start) =
        parser.next_action("a-1 [0] 1.5: sched_wake_idle_without_ipi: cpu=1").unwrap().unwrap();
    assert_eq!(start, at(0, 7));
    assert_eq!(parser.last_timestamp, at(1, 500_000_000));
    parser.start_at(Timestamp { seconds: 9, nanos: 0 });
    let (_, _, start) =
        parser.next_action("a-1 [0] 2.5: sched_wake_idle_without_ipi: cpu=1").unwrap().unwrap();
    assert_eq!(start, at(9, 0));
}

#[test]
fn snapshot_is_a_copy_of_the_table() {
    let mut parser = TraceParser::new(Some("cpus=4")).unwrap();
    let (_, after_waking, _) = parser
        .next_action("swapper-0 [001] 1.0: sched_waking: comm=sshd pid=10 prio=120 target_cpu=002")
        .unwrap()
        .unwrap();
    let (_, after_wakeup, _) = parser
        .next_action("swapper-0 [002] 1.1: sched_wakeup: sshd:10 [120] CPU:002")
        .unwrap()
        .unwrap();
    assert_eq!(after_waking.get(&10), Some(&Wstate::Waking(1, 2)));
    assert_eq!(after_wakeup.get(&10), Some(&Wstate::Woken));
    assert_eq!(parser.process_state().get(&10), Some(&Wstate::Woken));
}

#[test]
fn bad_line_leaves_the_cursor_as_it_was() {
    let mut parser = TraceParser::new(Some("cpus=4")).unwrap();
    let result = feed(
        &mut parser,
        &[
            "swapper-0 [001] 1.0: sched_waking: comm=sshd pid=10 prio=120 target_cpu=002",
            "swapper-0 [001] 1.1: sched_waking: comm=sshd pid=ten prio=120 target_cpu=002",
            "swapper-0 [002] 1.2: sched_wakeup: sshd:10 [120] CPU:002",
        ],
    );
    assert_eq!(result.err(), Some(TraceError::InvalidNumber));
    assert_eq!(parser.process_state().len(), 1);
    assert_eq!(parser.process_state().get(&10), Some(&Wstate::Waking(1, 2)));
    assert_eq!(parser.first_timestamp, at(1, 0));
    assert_eq!(parser.last_timestamp, at(1, 0));
    assert_eq!(
        parser.next_action("a-1 [0] 3.0: sched_wakeup_new: x:77 [120] CPU:001").err(),
        Some(TraceError::WakeupWithoutWaking)
    );
    assert_eq!(parser.last_timestamp, at(1, 0));
}

#[test]
fn two_traces_have_two_tables() {
    let mut first = TraceParser::new(Some("cpus=4")).unwrap();
    let mut second = TraceParser::new(Some("cpus=4")).unwrap();
    first
        .next_action("swapper-0 [001] 1.0: sched_waking: comm=sshd pid=10 prio=120 target_cpu=002")
        .unwrap();
    assert_eq!(first.process_state().len(), 1);
    assert!(second.process_state().is_empty());
    let (migrate, states, _) = second
        .next_action(
            "swapper-0 [002] 1.2: sched_migrate_task: comm=sshd pid=10 prio=120 orig_cpu=2 dest_cpu=3",
        )
        .unwrap()
        .unwrap();
    assert_eq!(
        classify_migrate_event(&migrate, &states, &four_cpus()),
        Ok(Some(MigrationCause::Unclassified))
    );
}

#[test]
fn woken_supersedes_waking_before_the_migration() {
    let mut parser = TraceParser::new(Some("cpus=4")).unwrap();
    assert_eq!(parser.cpu_count, 4);
    let steps = feed(
        &mut parser,
        &[
            "swapper-0 [001] 1.0: sched_waking: comm=sshd pid=10 prio=120 target_cpu=002",
            "swapper-0 [002] 1.1: sched_wakeup: sshd:10 [120] CPU:002",
            "swapper-0 [002] 1.2: sched_migrate_task: comm=sshd pid=10 prio=120 orig_cpu=2 dest_cpu=3",
        ],
    )
    .unwrap();
    let machine = four_cpus();
    let mut causes = Vec::new();
    for (action, states, _) in &steps {
        if let Some(cause) = classify_migrate_event(action, states, &machine).unwrap() {
            causes.push(cause);
        }
    }
    assert_eq!(causes, vec![MigrationCause::OnSocketLoadBalancing]);
}

#[test]
fn migration_before_the_wakeup_is_a_placement() {
    let mut parser = TraceParser::new(Some("cpus=4")).unwrap();
    let steps = feed(
        &mut parser,
        &[
            "swapper-0 [001] 1.0: sched_waking: comm=sshd pid=10 prio=120 target_cpu=002",
            "swapper-0 [002] 1.1: sched_migrate_task: comm=sshd pid=10 prio=120 orig_cpu=2 dest_cpu=3",
            "swapper-0 [002] 1.2: sched_wakeup: sshd:10 [120] CPU:002",
        ],
    )
    .unwrap();
    assert_eq!(steps.len(), 3);
    let machine = four_cpus();
    let mut causes = Vec::new();
    for (action, states, _) in &steps {
        if let Events::SchedMigrateTask { state, .. } = &action.event {
            assert_eq!(*state, Some(Wstate::Waking(1, 2)));
        }
        if let Some(cause) = classify_migrate_event(action, states, &machine).unwrap() {
            causes.push(cause);
        }
    }
    assert_eq!(causes, vec![MigrationCause::OnSocketUnblockPlacement]);
}
