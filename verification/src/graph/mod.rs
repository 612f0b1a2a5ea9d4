//! The event timeline: decoding, wake-state tracking and the layout and
//! classification rules that a chart of the timeline is drawn from.

pub mod colors;
pub mod decimal;
pub mod events;
pub mod laws;
pub mod layout;
pub mod parser;
pub mod text;

use vstd::prelude::*;
use std::collections::HashMap;
use crate::graph::colors::action_views;
use crate::graph::parser::{
    step, Action, ActionView, Events, EventsView, TraceError, TraceParser, TraceParserView, Wstate,
};
use crate::graph::text::{last_position, same_text, str_chars};
use crate::read_config::Machine;

verus! {

broadcast use vstd::std_specs::hash::group_hash_axioms;

/// What is wrong with the configured topology.
#[derive(Debug, Clone, Copy, PartialEq, Eq, Structural)]
pub enum ConfigError {
    /// A CPU lies in none of the ranges, or a range met on the way to it
    /// is no pair of numbers.
    BadNumaRanges,
    /// The machine is said to have no cores per socket.
    NoCores,
    /// A position in the socket-ordered layout is above `u32::MAX`.
    LayoutOverflow,
}

/// Whether the search for `cpu` stops at `range`: the range holds `cpu`, or
/// it is no pair of numbers.
pub open spec fn stops(range: Seq<u32>, cpu: u32) -> bool {
    range.len() < 2 || (range[0] <= cpu && cpu <= range[1])
}

/// The position in `socket` of the first range from `from` on at which the
/// search for `cpu` stops; the number of ranges where there is none.
pub open spec fn first_stop_in(socket: Seq<Seq<u32>>, cpu: u32, from: int) -> int
    decreases socket.len() - from,
{
    if from < 0 || from >= socket.len() {
        socket.len() as int
    } else if stops(socket[from], cpu) {
        from
    } else {
        first_stop_in(socket, cpu, from + 1)
    }
}

/// The socket and the range at which the search for `cpu` stops, going
/// through the sockets from `from` on and through the ranges of each in
/// the order of their declaration; the number of sockets, and zero, where
/// it stops nowhere.
pub open spec fn first_stop(ranges: Seq<Seq<Seq<u32>>>, cpu: u32, from: int) -> (int, int)
    decreases ranges.len() - from,
{
    if from < 0 || from >= ranges.len() {
        (ranges.len() as int, 0)
    } else {
        let r = first_stop_in(ranges[from], cpu, 0);
        if r < ranges[from].len() {
            (from, r)
        } else {
            first_stop(ranges, cpu, from + 1)
        }
    }
}

/// The socket of `cpu` and, within the socket, the range that holds it:
/// the first range in the order of declaration that does. `None` where no
/// range holds `cpu`, where a range before the first that does is no pair
/// of numbers, and where a position does not fit 32 bits.
pub open spec fn socket_order(ranges: Seq<Seq<Seq<u32>>>, cpu: u32) -> Option<(u32, u32)> {
    let (s, r) = first_stop(ranges, cpu, 0);
    if s < ranges.len() && ranges[s][r].len() >= 2 && s <= u32::MAX && r <= u32::MAX {
        Some((s as u32, r as u32))
    } else {
        None
    }
}

/// Where the search for `cpu` in one socket stops.
pub proof fn lemma_first_stop_in(socket: Seq<Seq<u32>>, cpu: u32, from: int)
    requires
        0 <= from <= socket.len(),
    ensures
        from <= first_stop_in(socket, cpu, from) <= socket.len(),
        first_stop_in(socket, cpu, from) < socket.len() ==> stops(
            socket[first_stop_in(socket, cpu, from)],
            cpu,
        ),
        forall|j: int|
            from <= j < first_stop_in(socket, cpu, from) ==> !stops(#[trigger] socket[j], cpu),
    decreases socket.len() - from,
{
    if from < socket.len() && !stops(socket[from], cpu) {
        lemma_first_stop_in(socket, cpu, from + 1);
    }
}

/// Where the search for `cpu` stops: at a range of a socket, with no stop
/// at any range of an earlier socket from `from` on nor at an earlier
/// range of the same socket; or nowhere.
pub proof fn lemma_first_stop(ranges: Seq<Seq<Seq<u32>>>, cpu: u32, from: int)
    requires
        0 <= from <= ranges.len(),
    ensures
        from <= first_stop(ranges, cpu, from).0 <= ranges.len(),
        first_stop(ranges, cpu, from).0 < ranges.len() ==> {
            let (s, r) = first_stop(ranges, cpu, from);
            &&& 0 <= r < ranges[s].len()
            &&& stops(ranges[s][r], cpu)
            &&& forall|j: int| 0 <= j < r ==> !stops(#[trigger] ranges[s][j], cpu)
        },
        forall|i: int, j: int|
            from <= i < first_stop(ranges, cpu, from).0 && 0 <= j < ranges[i].len() ==> !stops(
                #[trigger] ranges[i][j],
                cpu,
            ),
    decreases ranges.len() - from,
{
    if from < ranges.len() {
        lemma_first_stop_in(ranges[from], cpu, 0);
        if first_stop_in(ranges[from], cpu, 0) >= ranges[from].len() {
            lemma_first_stop(ranges, cpu, from + 1);
        }
    }
}

/// Finds the socket of `cpu` and the range of that socket that holds it.
pub fn get_socket_order(cpu: u32, machine: &Machine) -> (r: Result<(u32, u32), ConfigError>)
    ensures
        match r {
            Ok(place) => socket_order(machine.ranges(), cpu) == Some(place),
            Err(e) => e == ConfigError::BadNumaRanges && socket_order(
                machine.ranges(),
                cpu,
            ).is_none(),
        },
{
    let ghost ranges = machine.ranges();
    let mut s: usize = 0;
    while s < machine.numa_node_ranges.len()
        invariant
            s <= machine.numa_node_ranges.len(),
            ranges == machine.ranges(),
            first_stop(ranges, cpu, 0) == first_stop(ranges, cpu, s as int),
        decreases machine.numa_node_ranges.len() - s,
    {
        let socket = &machine.numa_node_ranges[s];
        let ghost socket_view = ranges[s as int];
        let mut r: usize = 0;
        while r < socket.len()
            invariant
                r <= socket.len(),
                s < machine.numa_node_ranges.len(),
                ranges == machine.ranges(),
                socket == &machine.numa_node_ranges[s as int],
                socket_view == ranges[s as int],
                socket_view.len() == socket.len(),
                first_stop(ranges, cpu, 0) == first_stop(ranges, cpu, s as int),
                first_stop_in(socket_view, cpu, 0) == first_stop_in(socket_view, cpu, r as int),
            decreases socket.len() - r,
        {
            let range = &socket[r];
            assert(range@ == socket_view[r as int]);
            if range.len() < 2 {
                assert(first_stop(ranges, cpu, s as int) == (s as int, r as int));
                return Err(ConfigError::BadNumaRanges);
            }
            if cpu >= range[0] && cpu <= range[1] {
                assert(first_stop(ranges, cpu, s as int) == (s as int, r as int));
                if s > 0xffff_ffff || r > 0xffff_ffff {
                    return Err(ConfigError::BadNumaRanges);
                }
                return Ok((s as u32, r as u32));
            }
            r = r + 1;
        }
        assert(first_stop(ranges, cpu, s as int) == first_stop(ranges, cpu, s + 1));
        s = s + 1;
    }
    Err(ConfigError::BadNumaRanges)
}

/// The row of `cpu` in a layout that keeps the CPUs of a socket together:
/// the sockets follow each other, each with room for all its hardware
/// threads, and within a socket the ranges follow each other, each with
/// room for one thread of every core.
pub open spec fn layout_position(machine: Machine, cpu: u32) -> Result<u32, ConfigError> {
    match socket_order(machine.ranges(), cpu) {
        None => Err(ConfigError::BadNumaRanges),
        Some((socket, range)) => if machine.cores_per_socket == 0 {
            Err(ConfigError::NoCores)
        } else {
            let position = socket * machine.cores_per_socket * machine.threads_per_core + cpu
                % machine.cores_per_socket + range * machine.cores_per_socket;
            if position <= u32::MAX {
                Ok(position as u32)
            } else {
                Err(ConfigError::LayoutOverflow)
            }
        },
    }
}

/// The first CPU from `from` on, and below the machine's number of CPUs,
/// that has no row in the socket-ordered layout; the number of CPUs where
/// every one has a row.
pub open spec fn first_unplaced(machine: Machine, from: int) -> int
    decreases machine.cpus - from,
{
    if from < 0 || from >= machine.cpus {
        machine.cpus as int
    } else if layout_position(machine, from as u32).is_err() {
        from
    } else {
        first_unplaced(machine, from + 1)
    }
}

/// The row of every CPU on the vertical axis.
///
/// Without socket order the CPUs below `cpu_count`, the number that the
/// trace declares, stand in the order of their ids. With socket order the
/// CPUs of the configured machine stand by `layout_position`; the first
/// CPU without a row gives the error.
pub open spec fn y_axis(machine: Machine, socket_order: bool, cpu_count: u32) -> Result<
    Map<u32, u32>,
    ConfigError,
> {
    if !socket_order {
        Ok(Map::new(|cpu: u32| cpu < cpu_count, |cpu: u32| cpu))
    } else {
        let bad = first_unplaced(machine, 0);
        if bad < machine.cpus {
            Err(layout_position(machine, bad as u32)->Err_0)
        } else {
            Ok(
                Map::new(
                    |cpu: u32| cpu < machine.cpus,
                    |cpu: u32| layout_position(machine, cpu)->Ok_0,
                ),
            )
        }
    }
}

/// Where the first CPU without a row is.
pub proof fn lemma_first_unplaced(machine: Machine, from: int)
    requires
        0 <= from <= machine.cpus,
    ensures
        from <= first_unplaced(machine, from) <= machine.cpus,
        first_unplaced(machine, from) < machine.cpus ==> layout_position(
            machine,
            first_unplaced(machine, from) as u32,
        ).is_err(),
        forall|cpu: u32|
            from <= cpu < first_unplaced(machine, from) ==> (#[trigger] layout_position(
                machine,
                cpu,
            )).is_ok(),
    decreases machine.cpus - from,
{
    if from < machine.cpus && layout_position(machine, from as u32).is_ok() {
        lemma_first_unplaced(machine, from + 1);
    }
}

/// Products of three 32-bit numbers stay far below the limit of 128 bits.
pub proof fn lemma_layout_fits(socket: u32, cores: u32, threads: u32, range: u32)
    ensures
        0 <= socket * cores <= 0xffff_ffff * 0xffff_ffff,
        0 <= socket * cores * threads <= 0xffff_ffff * 0xffff_ffff * 0xffff_ffff,
        0 <= range * cores <= 0xffff_ffff * 0xffff_ffff,
{
    assert(0 <= socket * cores <= 0xffff_ffff * 0xffff_ffff) by (nonlinear_arith)
        requires
            0 <= socket <= 0xffff_ffff,
            0 <= cores <= 0xffff_ffff,
    ;
    assert(0 <= range * cores <= 0xffff_ffff * 0xffff_ffff) by (nonlinear_arith)
        requires
            0 <= range <= 0xffff_ffff,
            0 <= cores <= 0xffff_ffff,
    ;
    let sc = socket * cores;
    assert(0 <= sc * threads <= 0xffff_ffff * 0xffff_ffff * 0xffff_ffff) by (nonlinear_arith)
        requires
            0 <= sc <= 0xffff_ffff * 0xffff_ffff,
            0 <= threads <= 0xffff_ffff,
    ;
}

/// The row of `cpu` in the socket-ordered layout.
pub fn get_layout_position(machine: &Machine, cpu: u32) -> (r: Result<u32, ConfigError>)
    ensures
        r == layout_position(*machine, cpu),
{
    let (socket, range) = match get_socket_order(cpu, machine) {
        Ok(place) => place,
        Err(e) => {
            return Err(e);
        },
    };
    let cores = machine.cores_per_socket;
    if cores == 0 {
        return Err(ConfigError::NoCores);
    }
    proof {
        lemma_layout_fits(socket, cores, machine.threads_per_core, range);
    }
    let socket_offset: u128 = socket as u128 * cores as u128 * machine.threads_per_core as u128;
    let position: u128 = socket_offset + (cpu % cores) as u128 + range as u128 * cores as u128;
    if position <= 0xffff_ffff {
        Ok(position as u32)
    } else {
        Err(ConfigError::LayoutOverflow)
    }
}

/// Builds the table from a CPU to its row on the vertical axis. With
/// `socket_order` the CPUs of one socket stand together.
pub fn get_y_axis(machine: &Machine, socket_order: bool, cpu_count: u32) -> (r: Result<
    HashMap<u32, u32>,
    ConfigError,
>)
    ensures
        match r {
            Ok(axis) => y_axis(*machine, socket_order, cpu_count) matches Ok(rows) && axis@
                =~= rows,
            Err(e) => y_axis(*machine, socket_order, cpu_count) == Err::<
                Map<u32, u32>,
                ConfigError,
            >(e),
        },
{
    let mut axis: HashMap<u32, u32> = HashMap::new();
    if !socket_order {
        let mut cpu: u32 = 0;
        while cpu < cpu_count
            invariant
                cpu <= cpu_count,
                axis@ =~= Map::new(|c: u32| c < cpu, |c: u32| c),
            decreases cpu_count - cpu,
        {
            axis.insert(cpu, cpu);
            cpu = cpu + 1;
        }
        return Ok(axis);
    }
    let mut cpu: u32 = 0;
    while cpu < machine.cpus
        invariant
            socket_order,
            cpu <= machine.cpus,
            first_unplaced(*machine, 0) == first_unplaced(*machine, cpu as int),
            axis@ =~= Map::new(|c: u32| c < cpu, |c: u32| layout_position(*machine, c)->Ok_0),
        decreases machine.cpus - cpu,
    {
        let position = match get_layout_position(machine, cpu) {
            Ok(position) => position,
            Err(e) => {
                assert(first_unplaced(*machine, cpu as int) == cpu);
                return Err(e);
            },
        };
        assert(first_unplaced(*machine, cpu as int) == first_unplaced(*machine, cpu + 1));
        axis.insert(cpu, position);
        cpu = cpu + 1;
    }
    assert(first_unplaced(*machine, cpu as int) == machine.cpus);
    Ok(axis)
}

/// Why a task moved from one CPU to another.
#[derive(Debug, Clone, Copy, PartialEq, Eq, Structural)]
pub enum MigrationCause {
    /// The task was placed when it was woken, on a CPU of the same socket.
    OnSocketUnblockPlacement,
    /// The task was placed when it was woken, on a CPU of another socket.
    OffSocketUnblockPlacement,
    /// The load balancer moved the runnable task within its socket.
    OnSocketLoadBalancing,
    /// The load balancer moved the runnable task to another socket.
    OffSocketLoadBalancing,
    /// The NUMA balancer moved the task, as it had said it would.
    NumaBalancing,
    /// Nothing is known of the task: no wake-path event was seen for it.
    Unclassified,
}

/// Whether two CPUs belong to one socket. Both must have a socket.
pub open spec fn same_socket(machine: Machine, a: u32, b: u32) -> Result<bool, ConfigError> {
    match socket_order(machine.ranges(), a) {
        None => Err(ConfigError::BadNumaRanges),
        Some((socket_a, _)) => match socket_order(machine.ranges(), b) {
            None => Err(ConfigError::BadNumaRanges),
            Some((socket_b, _)) => Ok(socket_a == socket_b),
        },
    }
}

/// The cause of a migration that the wake state says was a placement at
/// wake-up: on or off the socket, by the topology.
pub open spec fn unblock_placement(machine: Machine, orig_cpu: u32, dest_cpu: u32) -> Result<
    MigrationCause,
    ConfigError,
> {
    match same_socket(machine, orig_cpu, dest_cpu) {
        Err(e) => Err(e),
        Ok(same) => Ok(
            if same {
                MigrationCause::OnSocketUnblockPlacement
            } else {
                MigrationCause::OffSocketUnblockPlacement
            },
        ),
    }
}

/// The cause of a migration that the wake state says was the load
/// balancer's: on or off the socket, by the topology.
pub open spec fn load_balancing(machine: Machine, orig_cpu: u32, dest_cpu: u32) -> Result<
    MigrationCause,
    ConfigError,
> {
    match same_socket(machine, orig_cpu, dest_cpu) {
        Err(e) => Err(e),
        Ok(same) => Ok(
            if same {
                MigrationCause::OnSocketLoadBalancing
            } else {
                MigrationCause::OffSocketLoadBalancing
            },
        ),
    }
}

/// The cause of the migration of the task `pid` from `orig_cpu` to
/// `dest_cpu`, given the wake-state table `states` and the topology.
///
/// A task without an entry is unclassified. A task that is being woken was
/// placed by the wake-up. A woken task was moved by the load balancer. A
/// task with a pending NUMA move was moved by the NUMA balancer if the
/// migration is between the very CPUs that the move named; any other
/// migration of it is the load balancer's. Placement and load balancing
/// are on-socket where both CPUs have the same socket and off-socket where
/// not; only for them is the topology asked, and a CPU without a socket is
/// an error.
pub open spec fn migration_cause(
    states: Map<u32, Wstate>,
    machine: Machine,
    pid: u32,
    orig_cpu: u32,
    dest_cpu: u32,
) -> Result<MigrationCause, ConfigError> {
    if !states.contains_key(pid) {
        Ok(MigrationCause::Unclassified)
    } else {
        match states[pid] {
            Wstate::Waking(_, _) => unblock_placement(machine, orig_cpu, dest_cpu),
            Wstate::Woken => load_balancing(machine, orig_cpu, dest_cpu),
            Wstate::Numa(src, dst) => if orig_cpu == src && dest_cpu == dst {
                Ok(MigrationCause::NumaBalancing)
            } else {
                load_balancing(machine, orig_cpu, dest_cpu)
            },
        }
    }
}

/// The cause of the migration that `event` reports; `None` where the event
/// is no migration.
pub open spec fn event_cause(states: Map<u32, Wstate>, machine: Machine, event: EventsView)
    -> Result<Option<MigrationCause>, ConfigError> {
    match event {
        EventsView::SchedMigrateTask { pid, orig_cpu, dest_cpu, .. } => match migration_cause(
            states,
            machine,
            pid,
            orig_cpu,
            dest_cpu,
        ) {
            Ok(cause) => Ok(Some(cause)),
            Err(e) => Err(e),
        },
        _ => Ok(None),
    }
}

/// Whether two CPUs belong to one socket.
pub fn on_same_socket(machine: &Machine, a: u32, b: u32) -> (r: Result<bool, ConfigError>)
    ensures
        r == same_socket(*machine, a, b),
{
    let (socket_a, _) = match get_socket_order(a, machine) {
        Ok(place) => place,
        Err(e) => {
            return Err(e);
        },
    };
    let (socket_b, _) = match get_socket_order(b, machine) {
        Ok(place) => place,
        Err(e) => {
            return Err(e);
        },
    };
    Ok(socket_a == socket_b)
}

/// Names the cause of the migration of the task `pid` from `orig_cpu` to
/// `dest_cpu`. The wake-state table is read, never written.
pub fn classify_migration(
    states: &HashMap<u32, Wstate>,
    machine: &Machine,
    pid: u32,
    orig_cpu: u32,
    dest_cpu: u32,
) -> (r: Result<MigrationCause, ConfigError>)
    ensures
        r == migration_cause(states@, *machine, pid, orig_cpu, dest_cpu),
{
    let state = match states.get(&pid) {
        None => {
            return Ok(MigrationCause::Unclassified);
        },
        Some(state) => *state,
    };
    let placed = match state {
        Wstate::Waking(_, _) => true,
        Wstate::Woken => false,
        Wstate::Numa(src, dst) => {
            if src >= 0 && dst >= 0 && orig_cpu == src as u32 && dest_cpu == dst as u32 {
                return Ok(MigrationCause::NumaBalancing);
            }
            false
        },
    };
    let same = match on_same_socket(machine, orig_cpu, dest_cpu) {
        Ok(same) => same,
        Err(e) => {
            return Err(e);
        },
    };
    Ok(
        if placed {
            if same {
                MigrationCause::OnSocketUnblockPlacement
            } else {
                MigrationCause::OffSocketUnblockPlacement
            }
        } else {
            if same {
                MigrationCause::OnSocketLoadBalancing
            } else {
                MigrationCause::OffSocketLoadBalancing
            }
        },
    )
}

/// Names the cause of the migration that `action` reports, from the
/// wake-state table as it stood when the action was decoded. An action
/// that is no migration has no cause.
pub fn classify_migrate_event(
    action: &Action,
    states: &HashMap<u32, Wstate>,
    machine: &Machine,
) -> (r: Result<Option<MigrationCause>, ConfigError>)
    ensures
        r == event_cause(states@, *machine, action@.event),
{
    match &action.event {
        Events::SchedMigrateTask { pid, orig_cpu, dest_cpu, .. } => {
            match classify_migration(states, machine, *pid, *orig_cpu, *dest_cpu) {
                Ok(cause) => Ok(Some(cause)),
                Err(e) => Err(e),
            }
        },
        _ => Ok(None),
    }
}

/// The groups of events that a chart names in its legend and counts.
#[derive(Debug, Clone, Copy, PartialEq, Eq, Structural)]
pub enum Legend {
    Wakeup,
    WakeupNew,
    WakeIdleNoIpi,
    Waking,
    ProcessFork,
    OnSocketUnblockPlacement,
    OffSocketUnblockPlacement,
    OnSocketLoadBalancing,
    OffSocketLoadBalancing,
    NumaBalancing,
}

impl Legend {
    /// The place of the group among the ten.
    pub open spec fn index(self) -> int {
        match self {
            Legend::Wakeup => 0,
            Legend::WakeupNew => 1,
            Legend::WakeIdleNoIpi => 2,
            Legend::Waking => 3,
            Legend::ProcessFork => 4,
            Legend::OnSocketUnblockPlacement => 5,
            Legend::OffSocketUnblockPlacement => 6,
            Legend::OnSocketLoadBalancing => 7,
            Legend::OffSocketLoadBalancing => 8,
            Legend::NumaBalancing => 9,
        }
    }

    /// The text of the group in the legend.
    pub open spec fn text(self) -> Seq<char> {
        match self {
            Legend::Wakeup => "wakeup"@,
            Legend::WakeupNew => "wakeup new"@,
            Legend::WakeIdleNoIpi => "wake idle no ipi"@,
            Legend::Waking => "waking"@,
            Legend::ProcessFork => "process fork"@,
            Legend::OnSocketUnblockPlacement => "on-socket<br>unblock placement"@,
            Legend::OffSocketUnblockPlacement => "off-socket<br>unblock placement"@,
            Legend::OnSocketLoadBalancing => "on-socket<br>load balancing"@,
            Legend::OffSocketLoadBalancing => "off-socket<br>load balancing"@,
            Legend::NumaBalancing => "numa balancing"@,
        }
    }

    /// The place of the group among the ten.
    pub fn position(self) -> (i: usize)
        ensures
            i == self.index(),
            i < 10,
    {
        match self {
            Legend::Wakeup => 0,
            Legend::WakeupNew => 1,
            Legend::WakeIdleNoIpi => 2,
            Legend::Waking => 3,
            Legend::ProcessFork => 4,
            Legend::OnSocketUnblockPlacement => 5,
            Legend::OffSocketUnblockPlacement => 6,
            Legend::OnSocketLoadBalancing => 7,
            Legend::OffSocketLoadBalancing => 8,
            Legend::NumaBalancing => 9,
        }
    }

    /// The text of the group in the legend.
    pub fn name(self) -> (name: &'static str)
        ensures
            name@ == self.text(),
    {
        match self {
            Legend::Wakeup => "wakeup",
            Legend::WakeupNew => "wakeup new",
            Legend::WakeIdleNoIpi => "wake idle no ipi",
            Legend::Waking => "waking",
            Legend::ProcessFork => "process fork",
            Legend::OnSocketUnblockPlacement => "on-socket<br>unblock placement",
            Legend::OffSocketUnblockPlacement => "off-socket<br>unblock placement",
            Legend::OnSocketLoadBalancing => "on-socket<br>load balancing",
            Legend::OffSocketLoadBalancing => "off-socket<br>load balancing",
            Legend::NumaBalancing => "numa balancing",
        }
    }
}

/// The group that an event drawn as a notch is counted in; `None` for the
/// events that are drawn otherwise or not at all.
pub open spec fn marker_legend_of(event: EventsView) -> Option<Legend> {
    match event {
        EventsView::SchedWakeup { .. } => Some(Legend::Wakeup),
        EventsView::SchedWakeupNew { .. } => Some(Legend::WakeupNew),
        EventsView::SchedWakeIdleNoIpi { .. } => Some(Legend::WakeIdleNoIpi),
        EventsView::SchedWaking { .. } => Some(Legend::Waking),
        EventsView::SchedProcessFork { .. } => Some(Legend::ProcessFork),
        _ => None,
    }
}

/// The group that an event drawn as a notch is counted in.
pub fn marker_legend(event: &Events) -> (legend: Option<Legend>)
    ensures
        legend == marker_legend_of(event@),
{
    match event {
        Events::SchedWakeup { .. } => Some(Legend::Wakeup),
        Events::SchedWakeupNew { .. } => Some(Legend::WakeupNew),
        Events::SchedWakeIdleNoIpi { .. } => Some(Legend::WakeIdleNoIpi),
        Events::SchedWaking { .. } => Some(Legend::Waking),
        Events::SchedProcessFork { .. } => Some(Legend::ProcessFork),
        _ => None,
    }
}

impl MigrationCause {
    /// The group that a migration of this cause is counted in. An
    /// unclassified migration is in none.
    pub open spec fn legend_of(self) -> Option<Legend> {
        match self {
            MigrationCause::OnSocketUnblockPlacement => Some(Legend::OnSocketUnblockPlacement),
            MigrationCause::OffSocketUnblockPlacement => Some(Legend::OffSocketUnblockPlacement),
            MigrationCause::OnSocketLoadBalancing => Some(Legend::OnSocketLoadBalancing),
            MigrationCause::OffSocketLoadBalancing => Some(Legend::OffSocketLoadBalancing),
            MigrationCause::NumaBalancing => Some(Legend::NumaBalancing),
            MigrationCause::Unclassified => None,
        }
    }

    /// The group that a migration of this cause is counted in.
    pub fn legend(self) -> (legend: Option<Legend>)
        ensures
            legend == self.legend_of(),
    {
        match self {
            MigrationCause::OnSocketUnblockPlacement => Some(Legend::OnSocketUnblockPlacement),
            MigrationCause::OffSocketUnblockPlacement => Some(Legend::OffSocketUnblockPlacement),
            MigrationCause::OnSocketLoadBalancing => Some(Legend::OnSocketLoadBalancing),
            MigrationCause::OffSocketLoadBalancing => Some(Legend::OffSocketLoadBalancing),
            MigrationCause::NumaBalancing => Some(Legend::NumaBalancing),
            MigrationCause::Unclassified => None,
        }
    }
}

/// How often each group of the legend occurred.
pub struct FrequencyMap {
    counts: [u32; 10],
}

impl FrequencyMap {
    /// How often the group `legend` occurred.
    pub closed spec fn count(&self, legend: Legend) -> u32 {
        self.counts@[legend.index()]
    }

    /// How often the group `legend` occurred.
    pub fn get(&self, legend: Legend) -> (n: u32)
        ensures
            n == self.count(legend),
    {
        self.counts[legend.position()]
    }

    /// Counts one more event of the group `legend`.
    pub fn record(&mut self, legend: Legend)
        requires
            old(self).count(legend) < u32::MAX,
        ensures
            final(self).count(legend) == old(self).count(legend) + 1,
            forall|other: Legend|
                other != legend ==> final(self).count(other) == old(self).count(other),
    {
        let i = legend.position();
        let n = self.counts[i];
        self.counts.set(i, n + 1);
    }
}

/// The counts before any event: every group of the legend at zero.
pub fn get_frequency_map() -> (frequency: FrequencyMap)
    ensures
        forall|legend: Legend| frequency.count(legend) == 0,
{
    FrequencyMap { counts: [0, 0, 0, 0, 0, 0, 0, 0, 0, 0] }
}

/// The size of a marker for a chart of `cpu_count` rows: smaller where the
/// rows are many.
pub fn set_marker_size(cpu_count: u32) -> (size: usize)
    ensures
        size == (if cpu_count <= 64 {
            6usize
        } else if cpu_count <= 128 {
            5usize
        } else {
            3usize
        }),
{
    if cpu_count <= 64 {
        6
    } else if cpu_count <= 128 {
        5
    } else {
        3
    }
}

/// Whether `event` is the exit of a process named `sleep`.
pub open spec fn is_sleep_exit(event: EventsView) -> bool {
    event matches EventsView::SchedProcessExit { command, .. } && command == "sleep"@
}

/// One step of the search for the exit of the first `sleep` process, over
/// the line `line`: the cursor after it, and whether the line is that
/// exit.
///
/// The step is a step of the scan. Where it finds the exit of a process
/// named `sleep`, the timeline starts at the timestamp of that exit.
pub open spec fn sleep_step(c: TraceParserView, line: Seq<char>) -> (
    TraceParserView,
    Result<bool, TraceError>,
) {
    let (next, found) = step(c, line);
    match found {
        Err(e) => (next, Err(e)),
        Ok(Some(action)) => if is_sleep_exit(action.event) {
            (TraceParserView { first_timestamp: Some(action.timestamp), ..next }, Ok(true))
        } else {
            (next, Ok(false))
        },
        Ok(None) => (next, Ok(false)),
    }
}

/// Whether `event` is the exit of a process named `sleep`.
pub fn sleep_exits(event: &Events) -> (b: bool)
    ensures
        b == is_sleep_exit(event@),
{
    match event {
        Events::SchedProcessExit { command, .. } => same_text(
            &str_chars(command.as_str()),
            "sleep",
        ),
        _ => false,
    }
}

/// Takes in the next line of the trace in search of the exit of the first
/// `sleep` process, and says whether the line is that exit. The exit
/// becomes the start of the timeline.
pub fn find_sleep(reader: &mut TraceParser, line: &str) -> (r: Result<bool, TraceError>)
    ensures
        final(reader)@ == sleep_step(old(reader)@, line@).0,
        r == sleep_step(old(reader)@, line@).1,
{
    match reader.next_action(line) {
        Err(e) => Err(e),
        Ok(None) => Ok(false),
        Ok(Some((action, _, _))) => {
            if sleep_exits(&action.event) {
                reader.start_at(action.timestamp);
                Ok(true)
            } else {
                Ok(false)
            }
        },
    }
}

/// The name of the file that `path` leads to: what follows its last `/`.
pub open spec fn file_name_of(path: Seq<char>) -> Seq<char> {
    match path.index_of_last('/') {
        Some(i) => path.skip(i + 1),
        None => path,
    }
}

/// The name of a raw trace without its ending: what stands before the
/// last `.` of `name`, where `dat` follows it. `None` for any other file.
pub open spec fn raw_trace_stem(name: Seq<char>) -> Option<Seq<char>> {
    match name.index_of_last('.') {
        Some(i) => if name.skip(i + 1) == "dat"@ {
            Some(name.take(i))
        } else {
            None
        },
        None => None,
    }
}

/// The name of the file that `path` leads to.
pub fn file_name<'a>(path: &'a str) -> (name: &'a str)
    ensures
        name@ == file_name_of(path@),
{
    let chars = str_chars(path);
    match last_position(&chars, '/') {
        Some(i) => {
            assert(path@.subrange(i + 1, path@.len() as int) =~= path@.skip(i + 1));
            path.substring_char(i + 1, chars.len())
        },
        None => path,
    }
}

/// The name of the report that is written for the raw trace `name`: the
/// name with `txt` in place of `dat`. `None` where `name` is no raw trace,
/// which is then taken for a report itself.
pub fn report_name(name: &str) -> (report: Option<String>)
    ensures
        match report {
            Some(text) => raw_trace_stem(name@) matches Some(stem) && text@ == stem + ".txt"@,
            None => raw_trace_stem(name@).is_none(),
        },
{
    let chars = str_chars(name);
    match last_position(&chars, '.') {
        Some(i) => {
            let mut ending: Vec<char> = Vec::new();
            let mut j: usize = i + 1;
            while j < chars.len()
                invariant
                    i < j <= chars.len(),
                    ending@ == chars@.subrange(i + 1, j as int),
                decreases chars.len() - j,
            {
                ending.push(chars[j]);
                proof {
                    assert(chars@.subrange(i + 1, j + 1) =~= chars@.subrange(i + 1, j as int).push(
                        chars@[j as int],
                    ));
                }
                j = j + 1;
            }
            proof {
                assert(chars@.subrange(i + 1, chars@.len() as int) =~= name@.skip(i + 1));
                assert(name@.subrange(0, i as int) =~= name@.take(i as int));
            }
            if same_text(&ending, "dat") {
                let mut report = String::from_str(name.substring_char(0, i));
                report.append(".txt");
                Some(report)
            } else {
                None
            }
        },
        None => None,
    }
}

/// Whether `action` is a switch on the CPU `cpu`.
pub open spec fn is_switch_on(action: ActionView, cpu: u32) -> bool {
    action.cpu == cpu && action.event is SchedSwitch
}

/// The switches on the CPU `cpu` among `actions`, in their order.
pub open spec fn switches_on(actions: Seq<ActionView>, cpu: u32) -> Seq<ActionView> {
    actions.filter(|action: ActionView| is_switch_on(action, cpu))
}

/// The actions that a list refers to, as contracts see them.
pub open spec fn referred_views(actions: Seq<&Action>) -> Seq<ActionView> {
    actions.map_values(|action: &Action| action@)
}

/// The switches on `cpu` among the actions and one more are those among
/// the actions, and the one more where it is such a switch.
proof fn lemma_switches_on_push(actions: Seq<ActionView>, next: ActionView, cpu: u32)
    ensures
        switches_on(actions.push(next), cpu) == (if is_switch_on(next, cpu) {
            switches_on(actions, cpu).push(next)
        } else {
            switches_on(actions, cpu)
        }),
{
    reveal(Seq::filter);
    assert(actions.push(next).drop_last() =~= actions);
}

/// Groups the switch events by CPU. Every CPU with a switch has its
/// switches in the order of the actions; a CPU without one has no entry.
pub fn get_sched_switch_events<'a>(actions: &'a Vec<Action>) -> (data: HashMap<
    u32,
    Vec<&'a Action>,
>)
    ensures
        forall|cpu: u32|
            data@.contains_key(cpu) <==> (#[trigger] switches_on(action_views(actions@), cpu)).len()
                > 0,
        forall|cpu: u32|
            data@.contains_key(cpu) ==> referred_views(data@[cpu]@) == #[trigger] switches_on(
                action_views(actions@),
                cpu,
            ),
{
    let ghost views = action_views(actions@);
    let mut data: HashMap<u32, Vec<&'a Action>> = HashMap::new();
    let mut i: usize = 0;
    proof {
        reveal(Seq::filter);
        assert(views.take(0) =~= Seq::<ActionView>::empty());
    }
    while i < actions.len()
        invariant
            i <= actions.len(),
            views == action_views(actions@),
            forall|cpu: u32|
                data@.contains_key(cpu) <==> (#[trigger] switches_on(
                    views.take(i as int),
                    cpu,
                )).len() > 0,
            forall|cpu: u32|
                data@.contains_key(cpu) ==> referred_views(data@[cpu]@) == #[trigger] switches_on(
                    views.take(i as int),
                    cpu,
                ),
        decreases actions.len() - i,
    {
        let action = &actions[i];
        let ghost before = data@;
        proof {
            assert(action@ == views[i as int]);
            assert(views.take(i + 1) =~= views.take(i as int).push(views[i as int]));
            assert forall|cpu: u32|
                #[trigger] switches_on(views.take(i + 1), cpu) == (if is_switch_on(
                    views[i as int],
                    cpu,
                ) {
                    switches_on(views.take(i as int), cpu).push(views[i as int])
                } else {
                    switches_on(views.take(i as int), cpu)
                }) by {
                lemma_switches_on_push(views.take(i as int), views[i as int], cpu);
            }
        }
        if let Events::SchedSwitch { .. } = &action.event {
            let mut entry = match data.remove(&action.cpu) {
                Some(entry) => entry,
                None => Vec::new(),
            };
            let ghost old_entry = entry@;
            entry.push(action);
            proof {
                assert(referred_views(entry@) =~= referred_views(old_entry).push(action@));
                if !before.contains_key(action.cpu) {
                    assert(switches_on(views.take(i as int), action.cpu).len() == 0);
                    assert(referred_views(old_entry) =~= switches_on(
                        views.take(i as int),
                        action.cpu,
                    ));
                }
            }
            data.insert(action.cpu, entry);
        }
        i = i + 1;
    }
    proof {
        assert(views.take(actions.len() as int) =~= views);
    }
    data
}

/// Where an action lies with respect to the window of time that a chart
/// shows.
#[derive(Debug, Clone, Copy, PartialEq, Eq, Structural)]
pub enum WindowSide {
    /// Before the window opens.
    Before,
    /// Within the window, or there is no window.
    Within,
    /// After the window has closed.
    After,
}

/// What to do with an action, given the window.
pub enum WindowStep {
    /// Pass the action over and read on.
    Skip,
    /// The scan is over: every CPU has its switch at the edge.
    Stop,
    /// Draw the action.
    Draw(Action),
}

/// The switches at the edges of the window after one more action, by CPU.
///
/// A period that a task runs is drawn between two switches of a CPU, so a
/// period that crosses an edge of the window needs the switch beyond the
/// edge. Before the window, the latest switch of every CPU is kept. After
/// it, the first switch is kept of every CPU that has none yet, as long as
/// fewer CPUs have one than the trace has CPUs. Nothing else changes the
/// switches kept.
pub open spec fn edge_switches(
    kept: Map<u32, Action>,
    side: WindowSide,
    action: Action,
    cpu_count: u32,
) -> Map<u32, Action> {
    match side {
        WindowSide::Before => if action@.event is SchedSwitch {
            kept.insert(action.cpu, action)
        } else {
            kept
        },
        WindowSide::After => if kept.len() < cpu_count && action@.event is SchedSwitch
            && !kept.contains_key(action.cpu) {
            kept.insert(action.cpu, action)
        } else {
            kept
        },
        WindowSide::Within => kept,
    }
}

/// Decides what becomes of an action, given the side of the window that
/// it lies on, and keeps the switches at the edges of the window up to
/// date.
///
/// An action within the window is to be drawn. One before it is passed
/// over. One after it is passed over as long as fewer CPUs have a switch
/// kept than the trace has CPUs, and ends the scan once all have.
pub fn window_step(
    kept: &mut HashMap<u32, Action>,
    side: WindowSide,
    action: Action,
    cpu_count: u32,
) -> (step: WindowStep)
    ensures
        final(kept)@ == edge_switches(old(kept)@, side, action, cpu_count),
        match side {
            WindowSide::Before => step is Skip,
            WindowSide::Within => step matches WindowStep::Draw(drawn) && drawn == action,
            WindowSide::After => if old(kept)@.len() < cpu_count {
                step is Skip
            } else {
                step is Stop
            },
        },
{
    match side {
        WindowSide::Before => {
            if let Events::SchedSwitch { .. } = &action.event {
                kept.insert(action.cpu, action);
            }
            WindowStep::Skip
        },
        WindowSide::Within => WindowStep::Draw(action),
        WindowSide::After => {
            if kept.len() < cpu_count as usize {
                if let Events::SchedSwitch { .. } = &action.event {
                    if kept.get(&action.cpu).is_none() {
                        kept.insert(action.cpu, action);
                    }
                }
                WindowStep::Skip
            } else {
                WindowStep::Stop
            }
        },
    }
}

} // verus!
