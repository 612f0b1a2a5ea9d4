//! What holds of the topology lookup and of the socket-ordered layout.
//!
//! The lookup finds every CPU that a range declares and no other. On a
//! regular machine, where every socket has one range of CPUs for each
//! hardware thread of its cores, the socket-ordered layout is a
//! rearrangement of the CPUs: every CPU has a row, no two share one, and
//! no row below the number of CPUs stays empty.

use vstd::prelude::*;
use vstd::arithmetic::div_mod::{
    lemma_fundamental_div_mod, lemma_fundamental_div_mod_converse, lemma_mod_bound,
};
use crate::graph::{
    first_stop, layout_position, lemma_first_stop, lemma_first_unplaced, socket_order, stops,
    y_axis, ConfigError,
};
use crate::read_config::Machine;

verus! {

/// Whether `range` is a pair of numbers that holds `cpu` between them.
pub open spec fn holds(range: Seq<u32>, cpu: u32) -> bool {
    range.len() >= 2 && range[0] <= cpu && cpu <= range[1]
}

/// Whether every range is a pair of numbers, and sockets and ranges are
/// few enough to be numbered in 32 bits.
pub open spec fn all_pairs(ranges: Seq<Seq<Seq<u32>>>) -> bool {
    &&& ranges.len() <= u32::MAX
    &&& forall|s: int| 0 <= s < ranges.len() ==> (#[trigger] ranges[s]).len() <= u32::MAX
    &&& forall|s: int, r: int|
        0 <= s < ranges.len() && 0 <= r < ranges[s].len() ==> (#[trigger] ranges[s][r]).len() >= 2
}

/// Whether no CPU lies in two ranges.
pub open spec fn disjoint(ranges: Seq<Seq<Seq<u32>>>) -> bool {
    forall|s1: int, r1: int, s2: int, r2: int, cpu: u32|
        0 <= s1 < ranges.len() && 0 <= r1 < ranges[s1].len() && 0 <= s2 < ranges.len() && 0 <= r2
            < ranges[s2].len() && #[trigger] holds(ranges[s1][r1], cpu) && #[trigger] holds(
            ranges[s2][r2],
            cpu,
        ) ==> s1 == s2 && r1 == r2
}

/// Whether some range holds `cpu`.
pub open spec fn declared(ranges: Seq<Seq<Seq<u32>>>, cpu: u32) -> bool {
    exists|s: int, r: int|
        0 <= s < ranges.len() && 0 <= r < ranges[s].len() && #[trigger] holds(ranges[s][r], cpu)
}

impl Machine {
    /// Whether the machine is regular: its numbers and its ranges describe
    /// the same machine.
    ///
    /// There is a list of ranges for every socket and a range for every
    /// hardware thread of a core; a range spans as many CPUs as a socket
    /// has cores; no CPU lies in two ranges; and the CPUs are those below
    /// `cpus`, each in a range, as many as sockets, cores and threads
    /// multiply to.
    pub open spec fn regular(&self) -> bool {
        let ranges = self.ranges();
        &&& self.cores_per_socket > 0
        &&& ranges.len() == self.sockets
        &&& self.cpus == self.sockets * self.cores_per_socket * self.threads_per_core
        &&& forall|s: int|
            0 <= s < ranges.len() ==> (#[trigger] ranges[s]).len() == self.threads_per_core
        &&& forall|s: int, r: int|
            0 <= s < ranges.len() && 0 <= r < ranges[s].len() ==> {
                let range = #[trigger] ranges[s][r];
                &&& range.len() == 2
                &&& range[0] + self.cores_per_socket == range[1] + 1
                &&& range[1] < self.cpus
            }
        &&& disjoint(ranges)
        &&& forall|cpu: u32| cpu < self.cpus ==> #[trigger] declared(ranges, cpu)
    }
}

/// The lookup finds the range that holds a CPU, where the ranges are pairs
/// and no CPU lies in two of them.
pub proof fn lemma_socket_of_member(ranges: Seq<Seq<Seq<u32>>>, cpu: u32, s: int, r: int)
    requires
        all_pairs(ranges),
        disjoint(ranges),
        0 <= s < ranges.len(),
        0 <= r < ranges[s].len(),
        holds(ranges[s][r], cpu),
    ensures
        socket_order(ranges, cpu) == Some((s as u32, r as u32)),
{
    lemma_first_stop(ranges, cpu, 0);
    let (fs, fr) = first_stop(ranges, cpu, 0);
    if fs > s {
        assert(!stops(ranges[s][r], cpu));
    }
    assert(stops(ranges[fs][fr], cpu));
    assert(ranges[fs][fr].len() >= 2);
    assert(holds(ranges[fs][fr], cpu));
}

/// The lookup is total over the declared ranges and fails outside them:
/// where every range is a pair, a CPU has a socket if and only if some
/// range holds it, and the range found is the first that does.
pub proof fn lemma_socket_order_total(ranges: Seq<Seq<Seq<u32>>>, cpu: u32)
    requires
        all_pairs(ranges),
    ensures
        socket_order(ranges, cpu).is_some() <==> declared(ranges, cpu),
        socket_order(ranges, cpu) matches Some((s, r)) ==> {
            &&& s < ranges.len()
            &&& r < ranges[s as int].len()
            &&& holds(ranges[s as int][r as int], cpu)
            &&& forall|i: int, j: int|
                0 <= i < s && 0 <= j < ranges[i].len() ==> !holds(#[trigger] ranges[i][j], cpu)
            &&& forall|j: int| 0 <= j < r ==> !holds(#[trigger] ranges[s as int][j], cpu)
        },
{
    lemma_first_stop(ranges, cpu, 0);
    let (fs, fr) = first_stop(ranges, cpu, 0);
    if fs < ranges.len() {
        assert(ranges[fs][fr].len() >= 2);
        assert(holds(ranges[fs][fr], cpu));
        assert(ranges[fs].len() <= u32::MAX);
        assert forall|i: int, j: int| 0 <= i < fs && 0 <= j < ranges[i].len() implies !holds(
            #[trigger] ranges[i][j],
            cpu,
        ) by {
            assert(!stops(ranges[i][j], cpu));
        }
        assert forall|j: int| 0 <= j < fr implies !holds(#[trigger] ranges[fs][j], cpu) by {
            assert(!stops(ranges[fs][j], cpu));
        }
    } else {
        if declared(ranges, cpu) {
            let (s, r) = choose|s: int, r: int|
                0 <= s < ranges.len() && 0 <= r < ranges[s].len() && #[trigger] holds(
                    ranges[s][r],
                    cpu,
                );
            assert(!stops(ranges[s][r], cpu));
        }
    }
}

/// The row that the layout gives to the residue `m` of the range `r` of
/// the socket `s`, written as one number in the mixed radix of threads and
/// cores.
proof fn lemma_row(s: int, r: int, m: int, cores: int, threads: int)
    requires
        0 <= s,
        0 <= r < threads,
        0 <= m < cores,
    ensures
        s * cores * threads + m + r * cores == (s * threads + r) * cores + m,
        (s * threads + r) * cores + m >= 0,
        ((s * threads + r) * cores + m) / cores == s * threads + r,
        ((s * threads + r) * cores + m) % cores == m,
        (s * threads + r) / threads == s,
        (s * threads + r) % threads == r,
{
    assert(s * cores * threads + m + r * cores == (s * threads + r) * cores + m)
        by (nonlinear_arith);
    assert((s * threads + r) * cores + m >= 0) by (nonlinear_arith)
        requires
            0 <= s,
            0 <= r < threads,
            0 <= m < cores,
    ;
    lemma_fundamental_div_mod_converse((s * threads + r) * cores + m, cores, s * threads + r, m);
    lemma_fundamental_div_mod_converse(s * threads + r, threads, s, r);
}

/// A row of a socket below the number of sockets lies below the number of
/// CPUs.
proof fn lemma_row_bound(s: int, r: int, m: int, sockets: int, cores: int, threads: int)
    requires
        0 <= s < sockets,
        0 <= r < threads,
        0 <= m < cores,
    ensures
        (s * threads + r) * cores + m < sockets * cores * threads,
{
    assert((s * threads + r) * cores + m < sockets * cores * threads) by (nonlinear_arith)
        requires
            0 <= s < sockets,
            0 <= r < threads,
            0 <= m < cores,
    ;
}

/// The row of a CPU of a regular machine: the socket and the range that
/// hold it, and the row that they and its residue give.
pub proof fn lemma_regular_row(machine: Machine, cpu: u32, s: int, r: int)
    requires
        machine.regular(),
        0 <= s < machine.ranges().len(),
        0 <= r < machine.ranges()[s].len(),
        holds(machine.ranges()[s][r], cpu),
    ensures
        socket_order(machine.ranges(), cpu) == Some((s as u32, r as u32)),
        layout_position(machine, cpu) == Ok::<u32, ConfigError>(
            ((s * machine.threads_per_core + r) * machine.cores_per_socket + cpu
                % machine.cores_per_socket) as u32,
        ),
        (s * machine.threads_per_core + r) * machine.cores_per_socket + cpu
            % machine.cores_per_socket < machine.cpus,
{
    let ranges = machine.ranges();
    let cores = machine.cores_per_socket as int;
    let threads = machine.threads_per_core as int;
    assert(all_pairs(ranges)) by {
        assert forall|i: int, j: int| 0 <= i < ranges.len() && 0 <= j < ranges[i].len() implies (
        #[trigger] ranges[i][j]).len() >= 2 by {}
    }
    lemma_socket_of_member(ranges, cpu, s, r);
    assert(ranges[s].len() == threads);
    let m = cpu as int % cores;
    lemma_row(s, r, m, cores, threads);
    lemma_row_bound(s, r, m, machine.sockets as int, cores, threads);
}

/// On a regular machine every CPU has a row, and the row lies below the
/// number of CPUs.
pub proof fn lemma_layout_total(machine: Machine, cpu: u32)
    requires
        machine.regular(),
        cpu < machine.cpus,
    ensures
        layout_position(machine, cpu) matches Ok(row) && row < machine.cpus,
{
    let ranges = machine.ranges();
    assert(declared(ranges, cpu));
    let (s, r) = choose|s: int, r: int|
        0 <= s < ranges.len() && 0 <= r < ranges[s].len() && #[trigger] holds(ranges[s][r], cpu);
    lemma_regular_row(machine, cpu, s, r);
}

/// On a regular machine no two CPUs share a row.
pub proof fn lemma_layout_injective(machine: Machine, a: u32, b: u32)
    requires
        machine.regular(),
        a < machine.cpus,
        b < machine.cpus,
        layout_position(machine, a) == layout_position(machine, b),
    ensures
        a == b,
{
    let ranges = machine.ranges();
    let cores = machine.cores_per_socket as int;
    let threads = machine.threads_per_core as int;
    assert(declared(ranges, a));
    assert(declared(ranges, b));
    let (sa, ra) = choose|s: int, r: int|
        0 <= s < ranges.len() && 0 <= r < ranges[s].len() && #[trigger] holds(ranges[s][r], a);
    let (sb, rb) = choose|s: int, r: int|
        0 <= s < ranges.len() && 0 <= r < ranges[s].len() && #[trigger] holds(ranges[s][r], b);
    lemma_regular_row(machine, a, sa, ra);
    lemma_regular_row(machine, b, sb, rb);
    let ma = a as int % cores;
    let mb = b as int % cores;
    lemma_row(sa, ra, ma, cores, threads);
    lemma_row(sb, rb, mb, cores, threads);
    assert(sa == sb && ra == rb && ma == mb);
    let range = ranges[sa][ra];
    lemma_fundamental_div_mod(a as int, cores);
    lemma_fundamental_div_mod(b as int, cores);
    let qa = a as int / cores;
    let qb = b as int / cores;
    assert(a - b == cores * (qa - qb)) by (nonlinear_arith)
        requires
            a == cores * qa + ma,
            b == cores * qb + mb,
            ma == mb,
    ;
    assert(-cores < a - b < cores);
    assert(qa == qb) by (nonlinear_arith)
        requires
            a - b == cores * (qa - qb),
            -cores < a - b < cores,
            cores > 0,
    ;
}

/// On a regular machine every row below the number of CPUs is the row of
/// a CPU.
pub proof fn lemma_layout_surjective(machine: Machine, row: u32) -> (cpu: u32)
    requires
        machine.regular(),
        row < machine.cpus,
    ensures
        cpu < machine.cpus,
        layout_position(machine, cpu) == Ok::<u32, ConfigError>(row),
{
    let ranges = machine.ranges();
    let cores = machine.cores_per_socket as int;
    let threads = machine.threads_per_core as int;
    let sockets = machine.sockets as int;
    assert(threads > 0) by (nonlinear_arith)
        requires
            row < sockets * cores * threads,
            0 <= row,
            0 <= threads,
            0 <= sockets,
            0 < cores,
    ;
    let q = row as int / cores;
    let m = row as int % cores;
    lemma_fundamental_div_mod(row as int, cores);
    lemma_mod_bound(row as int, cores);
    let s = q / threads;
    let r = q % threads;
    lemma_fundamental_div_mod(q, threads);
    lemma_mod_bound(q, threads);
    assert(q >= 0 && q < sockets * threads) by (nonlinear_arith)
        requires
            row == cores * q + m,
            0 <= m < cores,
            0 <= row < sockets * cores * threads,
    ;
    assert(0 <= s < sockets) by (nonlinear_arith)
        requires
            q == threads * s + r,
            0 <= r < threads,
            0 <= q < sockets * threads,
    ;
    assert(ranges[s].len() == threads);
    let range = ranges[s][r];
    let low = range[0] as int;
    lemma_mod_bound(m - low, cores);
    let offset = (m - low) % cores;
    let cpu = (low + offset) as u32;
    assert(holds(range, cpu));
    lemma_fundamental_div_mod(m - low, cores);
    let t = (m - low) / cores;
    assert(low + offset == cores * (-t) + m) by (nonlinear_arith)
        requires
            m - low == cores * t + offset,
    ;
    lemma_fundamental_div_mod_converse(low + offset, cores, -t, m);
    lemma_regular_row(machine, cpu, s, r);
    assert((s * threads + r) * cores + m == row) by (nonlinear_arith)
        requires
            row == cores * q + m,
            q == threads * s + r,
    ;
    cpu
}

/// Whether `row` is the row of a CPU of the machine.
pub open spec fn row_taken(machine: Machine, row: u32) -> bool {
    exists|cpu: u32|
        cpu < machine.cpus && #[trigger] layout_position(machine, cpu) == Ok::<u32, ConfigError>(
            row,
        )
}

/// The socket-ordered layout of a regular machine is a rearrangement of
/// its CPUs: every CPU has a row below the number of CPUs, two CPUs have
/// two rows, and every row below the number of CPUs is taken.
pub proof fn lemma_layout_rearranges(machine: Machine)
    requires
        machine.regular(),
    ensures
        forall|cpu: u32|
            cpu < machine.cpus ==> ((#[trigger] layout_position(machine, cpu)) matches Ok(row)
                && row < machine.cpus),
        forall|a: u32, b: u32|
            a < machine.cpus && b < machine.cpus && #[trigger] layout_position(machine, a)
                == #[trigger] layout_position(machine, b) ==> a == b,
        forall|row: u32| row < machine.cpus ==> #[trigger] row_taken(machine, row),
{
    assert forall|cpu: u32| cpu < machine.cpus implies ((#[trigger] layout_position(
        machine,
        cpu,
    )) matches Ok(row) && row < machine.cpus) by {
        lemma_layout_total(machine, cpu);
    }
    assert forall|a: u32, b: u32|
        a < machine.cpus && b < machine.cpus && #[trigger] layout_position(machine, a)
            == #[trigger] layout_position(machine, b) implies a == b by {
        lemma_layout_injective(machine, a, b);
    }
    assert forall|row: u32| row < machine.cpus implies #[trigger] row_taken(machine, row) by {
        let cpu = lemma_layout_surjective(machine, row);
        assert(cpu < machine.cpus && layout_position(machine, cpu) == Ok::<u32, ConfigError>(row));
    }
}

/// The vertical axis of a regular machine in socket order is a
/// rearrangement of its CPUs: the table has a row for every CPU below the
/// number of CPUs and for no other, every row lies below that number, no
/// two CPUs share a row, and every row below that number is taken.
pub proof fn lemma_y_axis_rearranges(machine: Machine, cpu_count: u32)
    requires
        machine.regular(),
    ensures
        y_axis(machine, true, cpu_count) matches Ok(rows) && {
            &&& forall|cpu: u32| rows.contains_key(cpu) <==> cpu < machine.cpus
            &&& forall|cpu: u32| cpu < machine.cpus ==> #[trigger] rows[cpu] < machine.cpus
            &&& forall|a: u32, b: u32|
                a < machine.cpus && b < machine.cpus && #[trigger] rows[a] == #[trigger] rows[b]
                    ==> a == b
            &&& forall|row: u32| row < machine.cpus ==> #[trigger] rows.contains_value(row)
        },
{
    lemma_layout_rearranges(machine);
    lemma_first_unplaced(machine, 0);
    let rows = y_axis(machine, true, cpu_count)->Ok_0;
    assert forall|row: u32| row < machine.cpus implies #[trigger] rows.contains_value(row) by {
        assert(row_taken(machine, row));
        let cpu = choose|cpu: u32|
            cpu < machine.cpus && #[trigger] layout_position(machine, cpu) == Ok::<
                u32,
                ConfigError,
            >(row);
        assert(rows.contains_key(cpu) && rows[cpu] == row);
    }
}

/// Whether at most one range holds `cpu`.
pub open spec fn one_holder(ranges: Seq<Seq<Seq<u32>>>, cpu: u32) -> bool {
    forall|s1: int, r1: int, s2: int, r2: int|
        0 <= s1 < ranges.len() && 0 <= r1 < ranges[s1].len() && 0 <= s2 < ranges.len() && 0 <= r2
            < ranges[s2].len() && #[trigger] holds(ranges[s1][r1], cpu) && #[trigger] holds(
            ranges[s2][r2],
            cpu,
        ) ==> s1 == s2 && r1 == r2
}

/// Whether the position `(s, r)` comes before `(end_s, end_r)` in the
/// order of declaration.
pub open spec fn before(s: int, r: int, end_s: int, end_r: int) -> bool {
    s < end_s || (s == end_s && r < end_r)
}

/// Whether exactly one range holds `cpu`.
fn has_one_holder(machine: &Machine, cpu: u32) -> (b: bool)
    ensures
        b == (declared(machine.ranges(), cpu) && one_holder(machine.ranges(), cpu)),
{
    let ghost ranges = machine.ranges();
    let mut found = false;
    let ghost mut at: (int, int) = (0, 0);
    let mut s: usize = 0;
    while s < machine.numa_node_ranges.len()
        invariant
            s <= machine.numa_node_ranges.len(),
            ranges == machine.ranges(),
            found ==> 0 <= at.0 < s && 0 <= at.1 < ranges[at.0].len() && holds(
                ranges[at.0][at.1],
                cpu,
            ),
            forall|i: int, j: int|
                0 <= i < s && 0 <= j < ranges[i].len() && #[trigger] holds(ranges[i][j], cpu)
                    ==> found && at == (i, j),
        decreases machine.numa_node_ranges.len() - s,
    {
        let socket = &machine.numa_node_ranges[s];
        let mut r: usize = 0;
        while r < socket.len()
            invariant
                r <= socket.len(),
                s < machine.numa_node_ranges.len(),
                ranges == machine.ranges(),
                socket == &machine.numa_node_ranges[s as int],
                socket.len() == ranges[s as int].len(),
                found ==> 0 <= at.0 <= s && 0 <= at.1 < ranges[at.0].len() && before(
                    at.0,
                    at.1,
                    s as int,
                    r as int,
                ) && holds(ranges[at.0][at.1], cpu),
                forall|i: int, j: int|
                    0 <= i <= s && 0 <= j < ranges[i].len() && before(i, j, s as int, r as int)
                        && #[trigger] holds(ranges[i][j], cpu) ==> found && at == (i, j),
            decreases socket.len() - r,
        {
            let range = &socket[r];
            assert(range@ == ranges[s as int][r as int]);
            if range.len() >= 2 && range[0] <= cpu && cpu <= range[1] {
                if found {
                    assert(holds(ranges[at.0][at.1], cpu));
                    assert(holds(ranges[s as int][r as int], cpu));
                    return false;
                }
                found = true;
                proof {
                    at = (s as int, r as int);
                }
            }
            r = r + 1;
        }
        s = s + 1;
    }
    proof {
        if found {
            assert(holds(ranges[at.0][at.1], cpu));
        }
    }
    found
}

/// Whether every socket has a range for every hardware thread, and every
/// range spans as many CPUs as a socket has cores and ends below the
/// number of CPUs.
pub open spec fn ranges_fit(machine: Machine) -> bool {
    let ranges = machine.ranges();
    &&& forall|s: int|
        0 <= s < ranges.len() ==> (#[trigger] ranges[s]).len() == machine.threads_per_core
    &&& forall|s: int, r: int|
        0 <= s < ranges.len() && 0 <= r < ranges[s].len() ==> {
            let range = #[trigger] ranges[s][r];
            &&& range.len() == 2
            &&& range[0] + machine.cores_per_socket == range[1] + 1
            &&& range[1] < machine.cpus
        }
}

/// Whether the ranges of the machine fit its numbers.
fn has_fitting_ranges(machine: &Machine) -> (b: bool)
    ensures
        b == ranges_fit(*machine),
{
    let ghost ranges = machine.ranges();
    let mut s: usize = 0;
    while s < machine.numa_node_ranges.len()
        invariant
            s <= machine.numa_node_ranges.len(),
            ranges == machine.ranges(),
            forall|i: int| 0 <= i < s ==> (#[trigger] ranges[i]).len() == machine.threads_per_core,
            forall|i: int, j: int|
                0 <= i < s && 0 <= j < ranges[i].len() ==> {
                    let range = #[trigger] ranges[i][j];
                    &&& range.len() == 2
                    &&& range[0] + machine.cores_per_socket == range[1] + 1
                    &&& range[1] < machine.cpus
                },
        decreases machine.numa_node_ranges.len() - s,
    {
        let socket = &machine.numa_node_ranges[s];
        assert(socket.len() == ranges[s as int].len());
        if socket.len() > 0xffff_ffff || socket.len() != machine.threads_per_core as usize {
            return false;
        }
        let mut r: usize = 0;
        while r < socket.len()
            invariant
                r <= socket.len(),
                s < machine.numa_node_ranges.len(),
                ranges == machine.ranges(),
                socket == &machine.numa_node_ranges[s as int],
                socket.len() == ranges[s as int].len(),
                forall|j: int|
                    0 <= j < r ==> {
                        let range = #[trigger] ranges[s as int][j];
                        &&& range.len() == 2
                        &&& range[0] + machine.cores_per_socket == range[1] + 1
                        &&& range[1] < machine.cpus
                    },
            decreases socket.len() - r,
        {
            let range = &socket[r];
            assert(range@ == ranges[s as int][r as int]);
            if range.len() != 2 {
                return false;
            }
            if range[0] as u64 + machine.cores_per_socket as u64 != range[1] as u64 + 1 || range[1]
                >= machine.cpus {
                return false;
            }
            r = r + 1;
        }
        s = s + 1;
    }
    true
}

impl Machine {
    /// Says whether the machine is regular, so that the socket-ordered
    /// layout rearranges its CPUs.
    pub fn is_regular(&self) -> (b: bool)
        ensures
            b == self.regular(),
    {
        let ghost ranges = self.ranges();
        if self.cores_per_socket == 0 {
            return false;
        }
        if self.numa_node_ranges.len() > 0xffff_ffff || self.numa_node_ranges.len()
            != self.sockets as usize {
            return false;
        }
        proof {
            crate::graph::lemma_layout_fits(
                self.sockets,
                self.cores_per_socket,
                self.threads_per_core,
                0,
            );
        }
        let product: u128 = self.sockets as u128 * self.cores_per_socket as u128
            * self.threads_per_core as u128;
        if self.cpus as u128 != product {
            return false;
        }
        if !has_fitting_ranges(self) {
            return false;
        }
        let mut cpu: u32 = 0;
        while cpu < self.cpus
            invariant
                cpu <= self.cpus,
                ranges == self.ranges(),
                forall|c: u32| c < cpu ==> #[trigger] declared(ranges, c),
                forall|c: u32| c < cpu ==> #[trigger] one_holder(ranges, c),
            decreases self.cpus - cpu,
        {
            if !has_one_holder(self, cpu) {
                return false;
            }
            cpu = cpu + 1;
        }
        proof {
            assert forall|s1: int, r1: int, s2: int, r2: int, c: u32|
                0 <= s1 < ranges.len() && 0 <= r1 < ranges[s1].len() && 0 <= s2 < ranges.len()
                    && 0 <= r2 < ranges[s2].len() && #[trigger] holds(ranges[s1][r1], c)
                    && #[trigger] holds(ranges[s2][r2], c) implies s1 == s2 && r1 == r2 by {
                assert(c <= ranges[s1][r1][1]);
                assert(one_holder(ranges, c));
            }
        }
        true
    }
}

} // verus!
