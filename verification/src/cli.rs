//! The command-line vocabulary: sort orders, service state filters, service actions and
//! subcommands.
use vstd::prelude::*;

verus! {

/// Order in which processes are listed.
#[derive(Clone, Copy, Debug, PartialEq, Eq, Structural)]
pub enum ProcessSort {
    Cpu,
    Memory,
    Pid,
    Name,
}

/// Which services are listed.
#[derive(Clone, Copy, Debug, PartialEq, Eq, Structural)]
pub enum ServiceState {
    Running,
    Failed,
    All,
}

/// What to do to a service through `systemctl`.
#[derive(Clone, Copy, Debug, PartialEq, Eq, Structural)]
pub enum ServiceAction {
    Status,
    Start,
    Stop,
    Restart,
}

/// A subcommand of the command-line interface.
#[derive(Debug)]
pub enum Command {
    /// Launch the interactive TUI.
    Tui,
    /// Show a high-level system health summary.
    Summary,
    /// Show detailed host and OS information.
    System,
    /// Show memory and swap usage.
    Memory,
    /// Show mounted disks and capacity usage.
    Disks,
    /// Show top processes.
    Processes { limit: usize, sort: ProcessSort },
    /// Inspect services through systemd on Linux hosts.
    Services { state: ServiceState, limit: usize },
    /// Perform an action on a service through systemctl.
    Service { name: String, action: ServiceAction },
}

/// The parsed command line: a subcommand, or none for the dashboard.
#[derive(Debug)]
pub struct Cli {
    pub command: Option<Command>,
}

/// Whether a command line opens the interactive dashboard: no subcommand, or `tui`.
pub fn launches_tui(command: &Option<Command>) -> (b: bool)
    ensures
        b == (command is None || command matches Some(Command::Tui)),
{
    match command {
        None => true,
        Some(Command::Tui) => true,
        Some(_) => false,
    }
}

pub open spec fn action_word(action: ServiceAction) -> Seq<char> {
    match action {
        ServiceAction::Status => "status"@,
        ServiceAction::Start => "start"@,
        ServiceAction::Stop => "stop"@,
        ServiceAction::Restart => "restart"@,
    }
}

/// The `systemctl` verb for a service action.
pub fn action_name(action: ServiceAction) -> (s: &'static str)
    ensures
        s@ == action_word(action),
{
    match action {
        ServiceAction::Status => "status",
        ServiceAction::Start => "start",
        ServiceAction::Stop => "stop",
        ServiceAction::Restart => "restart",
    }
}

} // verus!
