//! The colours of the tasks on a chart.
//!
//! The periods that a task runs are drawn in the task's colour. A colour
//! is drawn at random when its key is met for the first time and is kept
//! from then on. The key of a task is its pid, its command, or its pid
//! with the colour handed down from parent to child.

use vstd::prelude::*;
use rand::Rng;
use std::collections::HashMap;
use crate::graph::parser::{Action, ActionView, Events, EventsView};
use crate::graph::text::{same_text, str_chars};

verus! {

broadcast use vstd::std_specs::hash::group_hash_axioms;

/// A colour: its red, green and blue parts.
#[derive(Debug, Clone, Copy, PartialEq, Eq, Structural)]
pub struct Color {
    pub red: u8,
    pub green: u8,
    pub blue: u8,
}

/// One part of a colour, drawn by `rand::Rng::gen_range` from the
/// generator of `rand::thread_rng` over the range `0..=255`. Every byte
/// lies in that range, so nothing is claimed of the result.
#[verifier::external_body]
fn random_part() -> (part: u8) {
    rand::thread_rng().gen_range(0..=255)
}

/// A colour drawn at random.
fn random_color() -> Color {
    Color { red: random_part(), green: random_part(), blue: random_part() }
}

/// What the tasks are told apart by when they are given colours.
#[derive(Debug, Clone, Copy, PartialEq, Eq, Structural)]
pub enum ColorKey {
    /// Every pid has a colour of its own.
    Pid,
    /// Every command has a colour of its own.
    Command,
    /// Every pid has a colour, and a child has that of its parent.
    Parent,
}

/// The key that the option `name` chooses: `pid`, `command` or `parent`;
/// `None` for any other text.
pub open spec fn color_key_of(name: Seq<char>) -> Option<ColorKey> {
    if name == "pid"@ {
        Some(ColorKey::Pid)
    } else if name == "command"@ {
        Some(ColorKey::Command)
    } else if name == "parent"@ {
        Some(ColorKey::Parent)
    } else {
        None
    }
}

/// The key that the option `name` chooses.
pub fn color_key(name: &str) -> (key: Option<ColorKey>)
    ensures
        key == color_key_of(name@),
{
    let chars = str_chars(name);
    if same_text(&chars, "pid") {
        Some(ColorKey::Pid)
    } else if same_text(&chars, "command") {
        Some(ColorKey::Command)
    } else if same_text(&chars, "parent") {
        Some(ColorKey::Parent)
    } else {
        None
    }
}

/// The colours of the tasks, by the key that was chosen for them.
pub enum ColorTable {
    /// A colour for every command, each command once.
    Command(Vec<(String, Color)>),
    /// A colour for every pid, children having that of their parent.
    Parent(HashMap<u32, Color>),
    /// A colour for every pid.
    Pid(HashMap<u32, Color>),
}

/// The actions as contracts see them.
pub open spec fn action_views(actions: Seq<Action>) -> Seq<ActionView> {
    actions.map_values(|a: Action| a@)
}

/// Whether `action` is a switch from or to the task `pid`. The idle task,
/// whose pid is zero, has no colour.
pub open spec fn switches(action: ActionView, pid: u32) -> bool {
    pid != 0 && (action.event matches EventsView::SchedSwitch { old_pid, new_pid, .. } && (old_pid
        == pid || new_pid == pid))
}

/// The pids of the tasks that are switched out or in.
pub open spec fn switch_pids(actions: Seq<ActionView>) -> Set<u32> {
    Set::new(
        |pid: u32| exists|i: int| 0 <= i < actions.len() && switches(#[trigger] actions[i], pid),
    )
}

/// Whether `action` is a switch from or to a task with the command
/// `command`, other than the idle task.
pub open spec fn switches_command(action: ActionView, command: Seq<char>) -> bool {
    action.event matches EventsView::SchedSwitch { old_command, old_pid, new_command, new_pid, .. }
        && ((old_pid != 0 && old_command == command) || (new_pid != 0 && new_command == command))
}

/// The commands of the tasks that are switched out or in.
pub open spec fn switch_commands(actions: Seq<ActionView>) -> Set<Seq<char>> {
    Set::new(
        |command: Seq<char>|
            exists|i: int|
                0 <= i < actions.len() && switches_command(#[trigger] actions[i], command),
    )
}

/// Whether `action` names the task `pid` as one to colour by parent: a
/// fork names the parent and the child, any other action the task that
/// was running.
pub open spec fn names_task(action: ActionView, pid: u32) -> bool {
    match action.event {
        EventsView::SchedProcessFork { pid: parent, child_pid, .. } => pid == parent || pid
            == child_pid,
        _ => pid == action.pid,
    }
}

/// The pids of the tasks to colour by parent.
pub open spec fn family_pids(actions: Seq<ActionView>) -> Set<u32> {
    Set::new(
        |pid: u32| exists|i: int| 0 <= i < actions.len() && names_task(#[trigger] actions[i], pid),
    )
}

/// Whether the child that `action` forks has the colour of its parent in
/// `colors`, unless it is among `colored`, the tasks that had a colour
/// before.
pub open spec fn child_inherits(action: ActionView, colored: Set<u32>, colors: Map<u32, Color>)
    -> bool {
    match action.event {
        EventsView::SchedProcessFork { pid, child_pid, .. } => pid != child_pid
            && !colored.contains(child_pid) ==> colors[child_pid] == colors[pid],
        _ => true,
    }
}

/// Whether the child of every fork has the colour of its parent in
/// `colors`, unless the child had a colour before the fork.
pub open spec fn children_inherit(actions: Seq<ActionView>, colors: Map<u32, Color>) -> bool {
    forall|i: int|
        0 <= i < actions.len() ==> child_inherits(
            #[trigger] actions[i],
            family_pids(actions.take(i)),
            colors,
        )
}

/// The commands of a list of colours.
pub open spec fn commands_of(colors: Seq<(String, Color)>) -> Seq<Seq<char>> {
    colors.map_values(|entry: (String, Color)| entry.0@)
}

/// The colour of `command` in `colors`, where it has one.
pub fn color_of_command(colors: &Vec<(String, Color)>, command: &str) -> (r: Option<Color>)
    ensures
        match r {
            Some(color) => exists|i: int|
                0 <= i < colors.len() && (#[trigger] colors[i]).0@ == command@ && colors[i].1
                    == color,
            None => !commands_of(colors@).contains(command@),
        },
{
    let wanted = str_chars(command);
    let mut i: usize = 0;
    while i < colors.len()
        invariant
            i <= colors.len(),
            wanted@ == command@,
            forall|j: int| 0 <= j < i ==> (#[trigger] colors[j]).0@ != command@,
        decreases colors.len() - i,
    {
        if same_text(&wanted, colors[i].0.as_str()) {
            return Some(colors[i].1);
        }
        i = i + 1;
    }
    proof {
        let names = commands_of(colors@);
        assert forall|j: int| 0 <= j < names.len() implies names[j] != command@ by {
            assert(names[j] == colors[j].0@);
        }
    }
    None
}

/// Gives `pid` a colour in `colors` unless it has one, and returns the
/// colour that it has then.
fn color_pid(colors: &mut HashMap<u32, Color>, pid: u32) -> (color: Color)
    ensures
        final(colors)@.dom() == old(colors)@.dom().insert(pid),
        final(colors)@[pid] == color,
        forall|other: u32|
            old(colors)@.contains_key(other) ==> final(colors)@[other] == old(colors)@[other],
{
    let color = match colors.get(&pid) {
        Some(color) => *color,
        None => {
            let color = random_color();
            colors.insert(pid, color);
            color
        },
    };
    assert(colors@.dom() =~= old(colors)@.dom().insert(pid));
    color
}

/// Gives `command` a colour in `colors` unless it has one.
fn color_command(colors: &mut Vec<(String, Color)>, command: &String)
    requires
        commands_of(old(colors)@).no_duplicates(),
    ensures
        commands_of(final(colors)@).no_duplicates(),
        commands_of(final(colors)@).to_set() == commands_of(old(colors)@).to_set().insert(command@),
{
    let ghost before = commands_of(colors@);
    if color_of_command(colors, command.as_str()).is_none() {
        colors.push((command.clone(), random_color()));
        proof {
            let after = commands_of(colors@);
            assert(after =~= before.push(command@));
            assert(after.to_set() =~= before.to_set().insert(command@)) by {
                assert forall|c: Seq<char>| after.contains(c) <==> before.contains(c) || c
                    == command@ by {
                    if before.contains(c) {
                        let k = choose|k: int| 0 <= k < before.len() && before[k] == c;
                        assert(after[k] == c);
                    }
                    if c == command@ {
                        assert(after[before.len() as int] == c);
                    }
                }
            }
        }
    } else {
        proof {
            let k = choose|k: int|
                0 <= k < colors.len() && (#[trigger] colors[k]).0@ == command@;
            assert(before[k] == command@);
            assert(before.to_set() =~= before.to_set().insert(command@));
        }
    }
}

/// A colour for every task that is switched out or in, by pid.
pub fn color_by_pid(actions: &Vec<Action>) -> (table: ColorTable)
    ensures
        table matches ColorTable::Pid(colors) && colors@.dom() == switch_pids(
            action_views(actions@),
        ),
{
    let ghost views = action_views(actions@);
    let mut colors: HashMap<u32, Color> = HashMap::new();
    let mut i: usize = 0;
    proof {
        assert(colors@.dom() =~= switch_pids(views.take(0)));
    }
    while i < actions.len()
        invariant
            i <= actions.len(),
            views == action_views(actions@),
            colors@.dom() == switch_pids(views.take(i as int)),
        decreases actions.len() - i,
    {
        let ghost before = colors@.dom();
        let action = &actions[i];
        assert(action@ == views[i as int]);
        if let Events::SchedSwitch { old_pid, new_pid, .. } = &action.event {
            if *old_pid != 0 {
                color_pid(&mut colors, *old_pid);
            }
            if *new_pid != 0 {
                color_pid(&mut colors, *new_pid);
            }
        }
        proof {
            let now = views.take(i + 1);
            assert forall|pid: u32| colors@.dom().contains(pid) <==> switch_pids(now).contains(
                pid,
            ) by {
                if before.contains(pid) {
                    let k = choose|k: int|
                        0 <= k < i && switches(#[trigger] views.take(i as int)[k], pid);
                    assert(switches(now[k], pid));
                }
                if switches(views[i as int], pid) {
                    assert(switches(now[i as int], pid));
                }
                if switch_pids(now).contains(pid) {
                    let k = choose|k: int| 0 <= k < i + 1 && switches(#[trigger] now[k], pid);
                    if k < i {
                        assert(switches(views.take(i as int)[k], pid));
                    }
                }
            }
            assert(colors@.dom() =~= switch_pids(now));
        }
        i = i + 1;
    }
    proof {
        assert(views.take(actions.len() as int) =~= views);
    }
    ColorTable::Pid(colors)
}

/// A colour for every task that is switched out or in, by command. No
/// command stands twice in the table.
pub fn color_by_command(actions: &Vec<Action>) -> (table: ColorTable)
    ensures
        table matches ColorTable::Command(colors) && commands_of(colors@).no_duplicates()
            && commands_of(colors@).to_set() == switch_commands(action_views(actions@)),
{
    let ghost views = action_views(actions@);
    let mut colors: Vec<(String, Color)> = Vec::new();
    let mut i: usize = 0;
    proof {
        assert(commands_of(colors@).to_set() =~= switch_commands(views.take(0)));
    }
    while i < actions.len()
        invariant
            i <= actions.len(),
            views == action_views(actions@),
            commands_of(colors@).no_duplicates(),
            commands_of(colors@).to_set() == switch_commands(views.take(i as int)),
        decreases actions.len() - i,
    {
        let ghost before = commands_of(colors@).to_set();
        let action = &actions[i];
        assert(action@ == views[i as int]);
        if let Events::SchedSwitch { old_command, old_pid, new_command, new_pid, .. } =
            &action.event {
            if *old_pid != 0 {
                color_command(&mut colors, old_command);
            }
            if *new_pid != 0 {
                color_command(&mut colors, new_command);
            }
        }
        proof {
            let now = views.take(i + 1);
            let after = commands_of(colors@).to_set();
            assert forall|command: Seq<char>| after.contains(command) <==> switch_commands(
                now,
            ).contains(command) by {
                if before.contains(command) {
                    let k = choose|k: int|
                        0 <= k < i && switches_command(#[trigger] views.take(i as int)[k], command);
                    assert(switches_command(now[k], command));
                }
                if switches_command(views[i as int], command) {
                    assert(switches_command(now[i as int], command));
                }
                if switch_commands(now).contains(command) {
                    let k = choose|k: int|
                        0 <= k < i + 1 && switches_command(#[trigger] now[k], command);
                    if k < i {
                        assert(switches_command(views.take(i as int)[k], command));
                    }
                }
            }
            assert(after =~= switch_commands(now));
        }
        i = i + 1;
    }
    proof {
        assert(views.take(actions.len() as int) =~= views);
    }
    ColorTable::Command(colors)
}

/// A colour for every task that the actions name, by pid, with the colour
/// of a parent handed down to the children it forks.
pub fn color_by_parent(actions: &Vec<Action>) -> (table: ColorTable)
    ensures
        table matches ColorTable::Parent(colors) && colors@.dom() == family_pids(
            action_views(actions@),
        ) && children_inherit(action_views(actions@), colors@),
{
    let ghost views = action_views(actions@);
    let mut colors: HashMap<u32, Color> = HashMap::new();
    let mut i: usize = 0;
    proof {
        assert(colors@.dom() =~= family_pids(views.take(0)));
    }
    while i < actions.len()
        invariant
            i <= actions.len(),
            views == action_views(actions@),
            colors@.dom() == family_pids(views.take(i as int)),
            children_inherit(views.take(i as int), colors@),
        decreases actions.len() - i,
    {
        let ghost before = colors@;
        let ghost past = views.take(i as int);
        let action = &actions[i];
        assert(action@ == views[i as int]);
        if let Events::SchedProcessFork { pid, child_pid, .. } = &action.event {
            let inherited = color_pid(&mut colors, *pid);
            if colors.get(child_pid).is_none() {
                colors.insert(*child_pid, inherited);
            }
        } else {
            color_pid(&mut colors, action.pid);
        }
        proof {
            let now = views.take(i + 1);
            assert forall|pid: u32| colors@.dom().contains(pid) <==> family_pids(now).contains(
                pid,
            ) by {
                if before.dom().contains(pid) {
                    let k = choose|k: int| 0 <= k < i && names_task(#[trigger] past[k], pid);
                    assert(names_task(now[k], pid));
                }
                if names_task(views[i as int], pid) {
                    assert(names_task(now[i as int], pid));
                }
                if family_pids(now).contains(pid) {
                    let k = choose|k: int| 0 <= k < i + 1 && names_task(#[trigger] now[k], pid);
                    if k < i {
                        assert(names_task(past[k], pid));
                    }
                }
            }
            assert(colors@.dom() =~= family_pids(now));
            assert forall|k: int| 0 <= k < now.len() implies child_inherits(
                #[trigger] now[k],
                family_pids(now.take(k)),
                colors@,
            ) by {
                if k < i {
                    assert(now[k] == past[k]);
                    assert(now.take(k) =~= past.take(k));
                    assert(child_inherits(past[k], family_pids(past.take(k)), before));
                    match now[k].event {
                        EventsView::SchedProcessFork { pid, child_pid, .. } => {
                            assert(names_task(past[k], pid));
                            assert(names_task(past[k], child_pid));
                            assert(before.dom().contains(pid));
                            assert(before.dom().contains(child_pid));
                        },
                        _ => {},
                    }
                } else {
                    assert(now.take(k) =~= past);
                }
            }
        }
        i = i + 1;
    }
    proof {
        assert(views.take(actions.len() as int) =~= views);
    }
    ColorTable::Parent(colors)
}

} // verus!
