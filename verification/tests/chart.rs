use std::collections::HashMap;

use tracing_tool::graph::colors::{
    color_by_command, color_by_parent, color_by_pid, color_key, color_of_command, Color, ColorKey,
    ColorTable,
};
use tracing_tool::graph::decimal::Timestamp;
use tracing_tool::graph::parser::{get_action, Action, Events, TraceError, TraceParser, Wstate};
use tracing_tool::graph::text::split_line;
use tracing_tool::graph::{
    file_name, find_sleep, get_frequency_map, get_sched_switch_events, marker_legend, report_name,
    set_marker_size, sleep_exits, window_step, Legend, MigrationCause, WindowSide, WindowStep,
};
use tracing_tool::read_config::{default_config, Events as Shown, ImageKind, Static};

fn decode_all(lines: &[&str]) -> Vec<Action> {
    let mut table: HashMap<u32, Wstate> = HashMap::new();
    lines
        .iter()
        .map(|line| {
            let parts = split_line(line);
            get_action(&parts, &mut table).unwrap()
        })
        .collect()
}

fn switch(cpu: u32, old: (&str, u32), new: (&str, u32)) -> Action {
    Action {
        process: String::from(old.0),
        pid: old.1,
        cpu,
        timestamp: Timestamp { seconds: 0, nanos: 0 },
        event: Events::SchedSwitch {
            old_command: String::from(old.0),
            old_pid: old.1,
            state: String::from("S"),
            new_command: String::from(new.0),
            new_pid: new.1,
        },
    }
}

fn fork(parent: u32, child: u32) -> Action {
    Action {
        process: String::from("p"),
        pid: parent,
        cpu: 0,
        timestamp: Timestamp { seconds: 0, nanos: 0 },
        event: Events::SchedProcessFork {
            command: String::from("p"),
            pid: parent,
            child_command: String::from("c"),
            child_pid: child,
        },
    }
}

const ALL_LEGENDS: [Legend; 10] = [
    Legend::Wakeup,
    Legend::WakeupNew,
    Legend::WakeIdleNoIpi,
    Legend::Waking,
    Legend::ProcessFork,
    Legend::OnSocketUnblockPlacement,
    Legend::OffSocketUnblockPlacement,
    Legend::OnSocketLoadBalancing,
    Legend::OffSocketLoadBalancing,
    Legend::NumaBalancing,
];

#[test]
fn marker_size_by_cpu_count() {
    assert_eq!(set_marker_size(0), 6);
    assert_eq!(set_marker_size(64), 6);
    assert_eq!(set_marker_size(65), 5);
    assert_eq!(set_marker_size(128), 5);
    assert_eq!(set_marker_size(129), 3);
    assert_eq!(set_marker_size(u32::MAX), 3);
}

#[test]
fn frequency_starts_at_zero_and_counts_one_group_at_a_time() {
    let mut frequency = get_frequency_map();
    for legend in ALL_LEGENDS {
        assert_eq!(frequency.get(legend), 0);
    }
    frequency.record(Legend::Waking);
    frequency.record(Legend::Waking);
    frequency.record(Legend::NumaBalancing);
    for legend in ALL_LEGENDS {
        let expected = match legend {
            Legend::Waking => 2,
            Legend::NumaBalancing => 1,
            _ => 0,
        };
        assert_eq!(frequency.get(legend), expected);
    }
}

#[test]
fn legends_have_their_names_and_places() {
    let names = [
        "wakeup",
        "wakeup new",
        "wake idle no ipi",
        "waking",
        "process fork",
        "on-socket<br>unblock placement",
        "off-socket<br>unblock placement",
        "on-socket<br>load balancing",
        "off-socket<br>load balancing",
        "numa balancing",
    ];
    for (i, legend) in ALL_LEGENDS.iter().enumerate() {
        assert_eq!(legend.position(), i);
        assert_eq!(legend.name(), names[i]);
    }
}

#[test]
fn causes_have_their_legends() {
    assert_eq!(
        MigrationCause::OnSocketUnblockPlacement.legend(),
        Some(Legend::OnSocketUnblockPlacement)
    );
    assert_eq!(
        MigrationCause::OffSocketUnblockPlacement.legend(),
        Some(Legend::OffSocketUnblockPlacement)
    );
    assert_eq!(MigrationCause::OnSocketLoadBalancing.legend(), Some(Legend::OnSocketLoadBalancing));
    assert_eq!(
        MigrationCause::OffSocketLoadBalancing.legend(),
        Some(Legend::OffSocketLoadBalancing)
    );
    assert_eq!(MigrationCause::NumaBalancing.legend(), Some(Legend::NumaBalancing));
    assert_eq!(MigrationCause::Unclassified.legend(), None);
}

#[test]
fn marker_events_have_their_legends() {
    let actions = decode_all(&[
        "a-1 [0] 1.0: sched_waking: comm=x pid=3 prio=120 target_cpu=1",
        "a-1 [0] 1.0: sched_wakeup: x:3 [120] CPU:001",
        "a-1 [0] 1.0: sched_process_fork: comm=x pid=3 child_comm=x child_pid=4",
        "a-1 [0] 1.0: sched_wakeup_new: x:4 [120] CPU:001",
        "a-1 [0] 1.0: sched_wake_idle_without_ipi: cpu=1",
        "a-1 [0] 1.0: sched_switch: x:3 [120] S ==> y:4 [120]",
        "a-1 [0] 1.0: sched_migrate_task: comm=x pid=3 prio=120 orig_cpu=1 dest_cpu=2",
        "a-1 [0] 1.0: sched_process_exit: comm=x pid=3 prio=120",
        "a-1 [0] 1.0: other: x",
    ]);
    let legends: Vec<Option<Legend>> = actions.iter().map(|a| marker_legend(&a.event)).collect();
    assert_eq!(
        legends,
        vec![
            Some(Legend::Waking),
            Some(Legend::Wakeup),
            Some(Legend::ProcessFork),
            Some(Legend::WakeupNew),
            Some(Legend::WakeIdleNoIpi),
            None,
            None,
            None,
            None,
        ]
    );
}

#[test]
fn sleep_exit_is_recognised() {
    let actions = decode_all(&[
        "sleep-9 [0] 1.0: sched_process_exit: comm=sleep pid=9 prio=120",
        "sleep-9 [0] 1.0: sched_process_exit: comm=sleeper pid=9 prio=120",
        "sleep-9 [0] 1.0: sched_process_exit: comm=my sleep pid=9 prio=120",
        "sleep-9 [0] 1.0: sched_process_free: comm=sleep pid=9 prio=120",
    ]);
    let found: Vec<bool> = actions.iter().map(|a| sleep_exits(&a.event)).collect();
    assert_eq!(found, vec![true, false, false, false]);
}

#[test]
fn find_sleep_starts_the_timeline_at_the_exit() {
    let mut parser = TraceParser::new(Some("cpus=4")).unwrap();
    assert_eq!(
        find_sleep(&mut parser, "a-1 [0] 1.0: sched_wake_idle_without_ipi: cpu=1"),
        Ok(false)
    );
    assert_eq!(parser.first_timestamp, Some(Timestamp { seconds: 1, nanos: 0 }));
    assert_eq!(find_sleep(&mut parser, "two tokens"), Ok(false));
    assert_eq!(
        find_sleep(&mut parser, "sleep-9 [0] 2.5: sched_process_exit: comm=sleep pid=9 prio=120"),
        Ok(true)
    );
    assert_eq!(parser.first_timestamp, Some(Timestamp { seconds: 2, nanos: 500_000_000 }));
    assert_eq!(parser.last_timestamp, Some(Timestamp { seconds: 2, nanos: 500_000_000 }));
    let (next, _, start) = parser
        .next_action("a-1 [0] 3.0: sched_wake_idle_without_ipi: cpu=1")
        .unwrap()
        .unwrap();
    assert_eq!(next.timestamp, Timestamp { seconds: 3, nanos: 0 });
    assert_eq!(start, Some(Timestamp { seconds: 2, nanos: 500_000_000 }));
}

#[test]
fn find_sleep_passes_over_other_exits() {
    let mut parser = TraceParser::new(Some("cpus=4")).unwrap();
    for line in [
        "cat-9 [0] 1.0: sched_process_exit: comm=cat pid=9 prio=120",
        "sleep-9 [0] 2.0: sched_process_free: comm=sleep pid=9 prio=120",
        "sleep-9 [0] 3.0: sched_process_exit: comm=my sleep pid=9 prio=120",
    ] {
        assert_eq!(find_sleep(&mut parser, line), Ok(false));
    }
    assert_eq!(parser.first_timestamp, Some(Timestamp { seconds: 1, nanos: 0 }));
    assert_eq!(parser.last_timestamp, Some(Timestamp { seconds: 3, nanos: 0 }));
}

#[test]
fn find_sleep_stops_at_a_bad_line() {
    let mut parser = TraceParser::new(Some("cpus=4")).unwrap();
    assert_eq!(
        find_sleep(&mut parser, "a-1 [0] 1.0: sched_wake_idle_without_ipi: cpu=one"),
        Err(TraceError::InvalidNumber)
    );
    assert_eq!(parser.first_timestamp, None);
    assert_eq!(parser.last_timestamp, None);
}

#[test]
fn file_names_and_report_names() {
    assert_eq!(file_name("/tmp/traces/run.dat"), "run.dat");
    assert_eq!(file_name("run.dat"), "run.dat");
    assert_eq!(file_name("dir/"), "");
    assert_eq!(file_name(""), "");
    assert_eq!(file_name("a/b/c"), "c");
    assert_eq!(report_name("run.dat"), Some(String::from("run.txt")));
    assert_eq!(report_name("my.run.dat"), Some(String::from("my.run.txt")));
    assert_eq!(report_name(".dat"), Some(String::from(".txt")));
    assert_eq!(report_name("run.txt"), None);
    assert_eq!(report_name("run.data"), None);
    assert_eq!(report_name("run.da"), None);
    assert_eq!(report_name("rundat"), None);
    assert_eq!(report_name("run.dat."), None);
    assert_eq!(report_name(""), None);
}

#[test]
fn image_kinds() {
    let of = |filetype: &str| {
        Static {
            gen_static: true,
            static_res_width: 1920,
            static_res_height: 1080,
            filetype: String::from(filetype),
        }
        .image_kind()
    };
    assert_eq!(of("png"), Some(ImageKind::Png));
    assert_eq!(of("svg"), Some(ImageKind::Svg));
    assert_eq!(of("jpeg"), Some(ImageKind::Jpeg));
    assert_eq!(of("webp"), Some(ImageKind::Webp));
    assert_eq!(of("pdf"), Some(ImageKind::Pdf));
    assert_eq!(of("eps"), Some(ImageKind::Eps));
    assert_eq!(of("jpg"), None);
    assert_eq!(of("PNG"), None);
    assert_eq!(of(""), None);
}

#[test]
fn shown_layers() {
    let none = Shown { show_events: false, show_switch: false, show_marker_only: false, show_migrate: false };
    assert!(!none.switch_markers_shown());
    assert!(!none.marker_events_shown());
    assert!(!none.migrations_shown());
    let all = Shown { show_events: true, ..none };
    assert!(all.switch_markers_shown() && all.marker_events_shown() && all.migrations_shown());
    let only_switch = Shown { show_switch: true, ..none };
    assert!(only_switch.switch_markers_shown());
    assert!(!only_switch.marker_events_shown() && !only_switch.migrations_shown());
    let only_markers = Shown { show_marker_only: true, ..none };
    assert!(only_markers.marker_events_shown());
    assert!(!only_markers.switch_markers_shown() && !only_markers.migrations_shown());
    let only_migrate = Shown { show_migrate: true, ..none };
    assert!(only_migrate.migrations_shown());
    assert!(!only_migrate.switch_markers_shown() && !only_migrate.marker_events_shown());
}

#[test]
fn default_configuration_text() {
    let text = default_config();
    assert!(text.starts_with("[machine]\n    cpus = 64\n"));
    assert!(text.ends_with("filetype = \"png\"\n"));
    assert_eq!(text.len(), 2238);
    assert!(text.contains("[graph.events]"));
    assert!(text.contains("[graph.static_options]"));
    assert!(text.contains("color_by = \"parent\""));
}

#[test]
fn default_configuration_parses_as_toml() {
    let table: toml::Table = toml::from_str(&default_config()).unwrap();
    let machine = table["machine"].as_table().unwrap();
    assert_eq!(machine["cpus"].as_integer(), Some(64));
    assert_eq!(machine["sockets"].as_integer(), Some(2));
    assert_eq!(machine["cores_per_socket"].as_integer(), Some(16));
    assert_eq!(machine["threads_per_core"].as_integer(), Some(2));
    let ranges = machine["numa_node_ranges"].as_array().unwrap();
    assert_eq!(ranges.len(), 2);
    assert_eq!(ranges[1].as_array().unwrap()[1].as_array().unwrap()[1].as_integer(), Some(63));
    let graph = table["graph"].as_table().unwrap();
    assert_eq!(graph["socket_order"].as_bool(), Some(false));
    assert_eq!(graph["events"].as_table().unwrap()["show_events"].as_bool(), Some(true));
    assert_eq!(graph["static_options"].as_table().unwrap()["filetype"].as_str(), Some("png"));
}

#[test]
fn switches_are_grouped_by_cpu_in_order() {
    let actions = vec![
        switch(1, ("a", 1), ("b", 2)),
        switch(0, ("c", 3), ("d", 4)),
        fork(1, 9),
        switch(1, ("b", 2), ("a", 1)),
        switch(0, ("d", 4), ("swapper", 0)),
        switch(1, ("a", 1), ("e", 5)),
    ];
    let groups = get_sched_switch_events(&actions);
    assert_eq!(groups.len(), 2);
    assert_eq!(groups[&1], vec![&actions[0], &actions[3], &actions[5]]);
    assert_eq!(groups[&0], vec![&actions[1], &actions[4]]);
    assert!(get_sched_switch_events(&vec![fork(1, 2)]).is_empty());
    assert!(get_sched_switch_events(&Vec::new()).is_empty());
}

#[test]
fn colors_by_pid_cover_the_switched_tasks() {
    let actions = vec![
        switch(1, ("a", 1), ("b", 2)),
        switch(0, ("swapper", 0), ("d", 4)),
        fork(7, 9),
        switch(1, ("b", 2), ("swapper", 0)),
    ];
    match color_by_pid(&actions) {
        ColorTable::Pid(colors) => {
            let mut pids: Vec<u32> = colors.keys().copied().collect();
            pids.sort();
            assert_eq!(pids, vec![1, 2, 4]);
        }
        _ => panic!("not keyed by pid"),
    }
    match color_by_pid(&Vec::new()) {
        ColorTable::Pid(colors) => assert!(colors.is_empty()),
        _ => panic!("not keyed by pid"),
    }
}

#[test]
fn colors_by_command_cover_the_switched_commands_once() {
    let actions = vec![
        switch(1, ("a", 1), ("b", 2)),
        switch(0, ("swapper", 0), ("a", 4)),
        fork(7, 9),
        switch(1, ("b", 2), ("swapper", 0)),
        switch(1, ("idle", 0), ("idle", 0)),
    ];
    match color_by_command(&actions) {
        ColorTable::Command(colors) => {
            let names: Vec<&str> = colors.iter().map(|entry| entry.0.as_str()).collect();
            assert_eq!(names, vec!["a", "b"]);
            assert_eq!(color_of_command(&colors, "a"), Some(colors[0].1));
            assert_eq!(color_of_command(&colors, "b"), Some(colors[1].1));
            assert_eq!(color_of_command(&colors, "swapper"), None);
            assert_eq!(color_of_command(&colors, "idle"), None);
        }
        _ => panic!("not keyed by command"),
    }
}

#[test]
fn colors_by_parent_are_handed_down() {
    let actions = vec![fork(1, 2), fork(2, 3), fork(1, 4), switch(0, ("x", 8), ("y", 9)), fork(5, 1)];
    match color_by_parent(&actions) {
        ColorTable::Parent(colors) => {
            let mut pids: Vec<u32> = colors.keys().copied().collect();
            pids.sort();
            assert_eq!(pids, vec![1, 2, 3, 4, 5, 8]);
            assert_eq!(colors[&2], colors[&1]);
            assert_eq!(colors[&3], colors[&1]);
            assert_eq!(colors[&4], colors[&1]);
        }
        _ => panic!("not keyed by parent"),
    }
}

#[test]
fn random_colors_differ_between_tasks() {
    let actions: Vec<Action> = (1..=64).map(|pid| switch(0, ("a", pid), ("b", pid + 100))).collect();
    match color_by_pid(&actions) {
        ColorTable::Pid(colors) => {
            assert_eq!(colors.len(), 128);
            let first: Color = colors[&1];
            assert!(colors.values().any(|color| *color != first));
        }
        _ => panic!("not keyed by pid"),
    }
}

#[test]
fn window_keeps_the_switches_at_its_edges() {
    let mut kept: HashMap<u32, Action> = HashMap::new();

    let step = window_step(&mut kept, WindowSide::Before, fork(1, 2), 2);
    assert!(matches!(step, WindowStep::Skip));
    assert!(kept.is_empty());

    let first = switch(0, ("a", 1), ("b", 2));
    let second = switch(0, ("b", 2), ("a", 1));
    assert!(matches!(window_step(&mut kept, WindowSide::Before, first, 2), WindowStep::Skip));
    assert!(matches!(
        window_step(&mut kept, WindowSide::Before, second.clone(), 2),
        WindowStep::Skip
    ));
    assert_eq!(kept.len(), 1);
    assert_eq!(kept.get(&0), Some(&second));

    let inside = switch(1, ("c", 3), ("d", 4));
    match window_step(&mut kept, WindowSide::Within, inside.clone(), 2) {
        WindowStep::Draw(action) => assert_eq!(action, inside),
        _ => panic!("an action within the window is drawn"),
    }
    assert_eq!(kept.len(), 1);

    let late_on_kept_cpu = switch(0, ("x", 7), ("y", 8));
    assert!(matches!(
        window_step(&mut kept, WindowSide::After, late_on_kept_cpu, 2),
        WindowStep::Skip
    ));
    assert_eq!(kept.get(&0), Some(&second));
    assert!(matches!(window_step(&mut kept, WindowSide::After, fork(1, 2), 2), WindowStep::Skip));
    assert_eq!(kept.len(), 1);

    let late = switch(1, ("d", 4), ("c", 3));
    let later = switch(1, ("c", 3), ("d", 4));
    assert!(matches!(
        window_step(&mut kept, WindowSide::After, late.clone(), 2),
        WindowStep::Skip
    ));
    assert_eq!(kept.len(), 2);
    assert!(matches!(window_step(&mut kept, WindowSide::After, later, 2), WindowStep::Stop));
    assert_eq!(kept.get(&1), Some(&late));
    assert_eq!(kept.get(&0), Some(&second));

    let mut none: HashMap<u32, Action> = HashMap::new();
    assert!(matches!(
        window_step(&mut none, WindowSide::After, switch(0, ("a", 1), ("b", 2)), 0),
        WindowStep::Stop
    ));
    assert!(none.is_empty());
}

#[test]
fn color_keys_by_name() {
    assert_eq!(color_key("pid"), Some(ColorKey::Pid));
    assert_eq!(color_key("command"), Some(ColorKey::Command));
    assert_eq!(color_key("parent"), Some(ColorKey::Parent));
    assert_eq!(color_key(""), None);
    assert_eq!(color_key("Pid"), None);
    assert_eq!(color_key("pid "), None);
    assert_eq!(color_key("parents"), None);
}
