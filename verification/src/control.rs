//! Decisions of the command: what to run, when to reload, what time it is.

use crate::policy::NS_PER_SEC;
use vstd::prelude::*;
use vstd::string::*;

verus! {

/// What an invocation comes to.
#[derive(Clone, Copy, Debug, PartialEq, Eq, Structural)]
pub enum Invocation {
    /// The command needs root privileges and has none.
    NotRoot,
    Inspect,
    Watch,
    Run,
    /// No subcommand was given.
    Nothing,
}

/// What an invocation with the given subcommand comes to.
pub open spec fn invoked(is_root: bool, subcommand: Option<Seq<char>>) -> Invocation {
    if !is_root {
        Invocation::NotRoot
    } else {
        match subcommand {
            None => Invocation::Nothing,
            Some(name) => if name == "inspect"@ {
                Invocation::Inspect
            } else if name == "watch"@ {
                Invocation::Watch
            } else {
                Invocation::Run
            },
        }
    }
}

/// Decides what to run. Privileges come first, whatever the subcommand.
pub fn invocation(is_root: bool, subcommand: Option<&str>) -> (decision: Invocation)
    ensures
        decision == invoked(
            is_root,
            match subcommand {
                Some(name) => Some(name@),
                None => None,
            },
        ),
{
    if !is_root {
        return Invocation::NotRoot;
    }
    match subcommand {
        None => Invocation::Nothing,
        Some(name) => {
            let name = String::from_str(name);
            if name == String::from_str("inspect") {
                Invocation::Inspect
            } else if name == String::from_str("watch") {
                Invocation::Watch
            } else {
                Invocation::Run
            }
        },
    }
}

/// A change reported for the directory of the configuration.
pub struct FileEvent {
    /// A file that was open for writing has been closed.
    pub closed_after_write: bool,
    /// For each path of the event, whether it ends in that of the configuration.
    pub is_config: Vec<bool>,
}

/// Whether an event is a save of the configuration.
pub open spec fn is_config_save(event: FileEvent) -> bool {
    event.closed_after_write && event.is_config@.contains(true)
}

/// What wakes the running command.
pub enum Wake {
    Interrupt,
    Terminate,
    Files(Vec<FileEvent>),
}

/// What the running command does next.
#[derive(Clone, Copy, Debug, PartialEq, Eq, Structural)]
pub enum LoopAction {
    Exit,
    Reload,
    Wait,
}

fn saves_config(event: &FileEvent) -> (yes: bool)
    ensures
        yes == is_config_save(*event),
{
    if !event.closed_after_write {
        return false;
    }
    let mut i: usize = 0;
    while i < event.is_config.len()
        invariant
            0 <= i <= event.is_config@.len(),
            event.closed_after_write,
            forall|j: int| 0 <= j < i ==> !event.is_config@[j],
        decreases event.is_config@.len() - i,
    {
        if event.is_config[i] {
            assert(event.is_config@[i as int] == true);
            return true;
        }
        i = i + 1;
    }
    false
}

/// Whether a save of the configuration is among the events.
pub open spec fn has_config_save(events: Seq<FileEvent>) -> bool {
    exists|i: int| 0 <= i < events.len() && is_config_save(#[trigger] events[i])
}

fn any_saves_config(events: &[FileEvent]) -> (yes: bool)
    ensures
        yes == has_config_save(events@),
{
    let mut i: usize = 0;
    while i < events.len()
        invariant
            0 <= i <= events@.len(),
            forall|j: int| 0 <= j < i ==> !is_config_save(#[trigger] events@[j]),
        decreases events@.len() - i,
    {
        if saves_config(&events[i]) {
            assert(is_config_save(events@[i as int]));
            return true;
        }
        i = i + 1;
    }
    false
}

/// Decides what a wake-up leads to: a signal ends the command, a save of the configuration
/// among the events has it reloaded.
pub fn on_wake(wake: &Wake) -> (action: LoopAction)
    ensures
        action == (match *wake {
            Wake::Interrupt => LoopAction::Exit,
            Wake::Terminate => LoopAction::Exit,
            Wake::Files(events) => if has_config_save(events@) {
                LoopAction::Reload
            } else {
                LoopAction::Wait
            },
        }),
{
    match wake {
        Wake::Interrupt => LoopAction::Exit,
        Wake::Terminate => LoopAction::Exit,
        Wake::Files(events) => {
            if any_saves_config(events.as_slice()) {
                LoopAction::Reload
            } else {
                LoopAction::Wait
            }
        },
    }
}

/// A reading of the clock in nanoseconds.
pub open spec fn clock_of(secs: i64, nanos: i64) -> int {
    (secs as u64) * NS_PER_SEC + (nanos as u64)
}

/// Turns a reading of the clock into nanoseconds.
pub fn clock_ns(secs: i64, nanos: i64) -> (now: u64)
    requires
        clock_of(secs, nanos) <= u64::MAX,
    ensures
        now == clock_of(secs, nanos),
{
    (secs as u64) * NS_PER_SEC + (nanos as u64)
}

/// A save of the configuration counts wherever it stands in a batch and whichever path of its
/// event names the file.
pub proof fn law_any_save_is_noticed(events: Seq<FileEvent>, i: int, j: int)
    requires
        0 <= i < events.len(),
        events[i].closed_after_write,
        0 <= j < events[i].is_config@.len(),
        events[i].is_config@[j],
    ensures
        has_config_save(events),
{
    assert(events[i].is_config@.contains(true));
    assert(is_config_save(events[i]));
}

/// A batch without an event that both closes a written file and names the configuration holds
/// no save.
pub proof fn law_nothing_else_is_a_save(events: Seq<FileEvent>)
    requires
        forall|i: int, j: int|
            0 <= i < events.len() && 0 <= j < events[i].is_config@.len()
                && events[i].closed_after_write ==> !(#[trigger] events[i].is_config@[j]),
    ensures
        !has_config_save(events),
{
    if has_config_save(events) {
        let i = choose|i: int| 0 <= i < events.len() && is_config_save(#[trigger] events[i]);
        let j = choose|j: int|
            0 <= j < events[i].is_config@.len() && events[i].is_config@[j] == true;
        assert(!events[i].is_config@[j]);
    }
}

/// Without privileges nothing runs. With them each subcommand runs what its name says, and any
/// other name the limiter.
pub proof fn law_privileges_and_name_decide(is_root: bool, name: Option<Seq<char>>)
    ensures
        invoked(is_root, name) == Invocation::NotRoot <==> !is_root,
        invoked(is_root, name) == Invocation::Nothing <==> is_root && name is None,
        invoked(is_root, name) == Invocation::Inspect <==> is_root && name == Some("inspect"@),
        invoked(is_root, name) == Invocation::Watch <==> is_root && name == Some("watch"@),
        invoked(is_root, name) == Invocation::Run <==> is_root && name is Some && name != Some(
            "inspect"@,
        ) && name != Some("watch"@),
{
    reveal_strlit("inspect");
    reveal_strlit("watch");
    assert("inspect"@.len() != "watch"@.len());
}

/// Every reading of a clock that does not go below zero is its seconds and its nanoseconds; one
/// with seconds below zero is no number of nanoseconds at all.
pub proof fn law_clock_adds_up(secs: i64, nanos: i64)
    ensures
        secs >= 0 && nanos >= 0 ==> clock_of(secs, nanos) == secs * 1_000_000_000 + nanos,
        secs >= 0 && nanos < 0 ==> clock_of(secs, nanos) == secs * 1_000_000_000 + nanos
            + 0x1_0000_0000_0000_0000,
        secs < 0 ==> clock_of(secs, nanos) > u64::MAX,
{
    if secs < 0 {
        assert((secs as u64) >= 0x8000_0000_0000_0000u64) by (bit_vector)
            requires
                secs < 0,
        ;
    }
    if nanos < 0 {
        assert((nanos as u64) == nanos + 0x1_0000_0000_0000_0000) by (bit_vector)
            requires
                nanos < 0,
        ;
    }
}

} // verus!
