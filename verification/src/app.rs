//! State of the interactive dashboard and its transitions: tabs, scrolling, filters, text
//! input, key handling, log search and error-spike detection, disk scan progress.
//!
//! Work that needs the outside world (collecting a snapshot, running a command, reading
//! logs) is not done here: transitions return the `Effect`s that the caller performs.
use crate::cli::{ProcessSort, ServiceState};
use crate::text::{chars_of, string_of};
use vstd::prelude::*;

verus! {

/// The dashboard's tabs, in display order.
#[derive(Clone, Copy, Debug, PartialEq, Eq, Structural)]
pub enum Tab {
    Overview,
    Cpu,
    Memory,
    Processes,
    Containers,
    Network,
    Disk,
    Gpu,
    Services,
    Logs,
    Hardware,
    Help,
}

#[derive(Clone, Copy, Debug, PartialEq, Eq, Structural)]
pub enum ProcessViewMode {
    Flat,
    Tree,
    User,
    Service,
    Container,
}

#[derive(Clone, Copy, Debug, PartialEq, Eq, Structural)]
pub enum LogLevelFilter {
    All,
    Error,
    Warn,
    Info,
}

#[derive(Clone, Copy, Debug, PartialEq, Eq, Structural)]
pub enum LogSourceFilter {
    All,
    Journal,
    Syslog,
    Dmesg,
}

#[derive(Clone, Copy, Debug, PartialEq, Eq, Structural)]
pub enum ConnectionStateFilter {
    All,
    Established,
    Listen,
    Closing,
    Suspicious,
}

/// Position of a tab in display order.
pub open spec fn tab_index(t: Tab) -> int {
    match t {
        Tab::Overview => 0,
        Tab::Cpu => 1,
        Tab::Memory => 2,
        Tab::Processes => 3,
        Tab::Containers => 4,
        Tab::Network => 5,
        Tab::Disk => 6,
        Tab::Gpu => 7,
        Tab::Services => 8,
        Tab::Logs => 9,
        Tab::Hardware => 10,
        Tab::Help => 11,
    }
}

/// The tab at a position in display order (positions taken modulo 12).
pub open spec fn tab_at(i: int) -> Tab {
    let k = i % 12;
    if k == 0 {
        Tab::Overview
    } else if k == 1 {
        Tab::Cpu
    } else if k == 2 {
        Tab::Memory
    } else if k == 3 {
        Tab::Processes
    } else if k == 4 {
        Tab::Containers
    } else if k == 5 {
        Tab::Network
    } else if k == 6 {
        Tab::Disk
    } else if k == 7 {
        Tab::Gpu
    } else if k == 8 {
        Tab::Services
    } else if k == 9 {
        Tab::Logs
    } else if k == 10 {
        Tab::Hardware
    } else {
        Tab::Help
    }
}

/// The tab after `t`, wrapping from the last to the first.
pub fn next_tab_of(t: Tab) -> (r: Tab)
    ensures
        r == tab_at(tab_index(t) + 1),
{
    match t {
        Tab::Overview => Tab::Cpu,
        Tab::Cpu => Tab::Memory,
        Tab::Memory => Tab::Processes,
        Tab::Processes => Tab::Containers,
        Tab::Containers => Tab::Network,
        Tab::Network => Tab::Disk,
        Tab::Disk => Tab::Gpu,
        Tab::Gpu => Tab::Services,
        Tab::Services => Tab::Logs,
        Tab::Logs => Tab::Hardware,
        Tab::Hardware => Tab::Help,
        Tab::Help => Tab::Overview,
    }
}

/// The tab before `t`, wrapping from the first to the last.
pub fn previous_tab_of(t: Tab) -> (r: Tab)
    ensures
        r == tab_at(tab_index(t) + 11),
{
    match t {
        Tab::Overview => Tab::Help,
        Tab::Cpu => Tab::Overview,
        Tab::Memory => Tab::Cpu,
        Tab::Processes => Tab::Memory,
        Tab::Containers => Tab::Processes,
        Tab::Network => Tab::Containers,
        Tab::Disk => Tab::Network,
        Tab::Gpu => Tab::Disk,
        Tab::Services => Tab::Gpu,
        Tab::Logs => Tab::Services,
        Tab::Hardware => Tab::Logs,
        Tab::Help => Tab::Hardware,
    }
}

/// Index of the highlighted title in the tab bar.
pub fn tab_bar_index(t: Tab) -> (r: usize)
    ensures
        r == tab_index(t),
{
    match t {
        Tab::Overview => 0,
        Tab::Cpu => 1,
        Tab::Memory => 2,
        Tab::Processes => 3,
        Tab::Containers => 4,
        Tab::Network => 5,
        Tab::Disk => 6,
        Tab::Gpu => 7,
        Tab::Services => 8,
        Tab::Logs => 9,
        Tab::Hardware => 10,
        Tab::Help => 11,
    }
}

pub open spec fn next_sort(s: ProcessSort) -> ProcessSort {
    match s {
        ProcessSort::Cpu => ProcessSort::Memory,
        ProcessSort::Memory => ProcessSort::Pid,
        ProcessSort::Pid => ProcessSort::Name,
        ProcessSort::Name => ProcessSort::Cpu,
    }
}

pub open spec fn next_view(v: ProcessViewMode) -> ProcessViewMode {
    match v {
        ProcessViewMode::Flat => ProcessViewMode::Tree,
        ProcessViewMode::Tree => ProcessViewMode::User,
        ProcessViewMode::User => ProcessViewMode::Service,
        ProcessViewMode::Service => ProcessViewMode::Container,
        ProcessViewMode::Container => ProcessViewMode::Flat,
    }
}

pub open spec fn next_connection_filter(f: ConnectionStateFilter) -> ConnectionStateFilter {
    match f {
        ConnectionStateFilter::All => ConnectionStateFilter::Established,
        ConnectionStateFilter::Established => ConnectionStateFilter::Listen,
        ConnectionStateFilter::Listen => ConnectionStateFilter::Closing,
        ConnectionStateFilter::Closing => ConnectionStateFilter::Suspicious,
        ConnectionStateFilter::Suspicious => ConnectionStateFilter::All,
    }
}

pub open spec fn next_level(f: LogLevelFilter) -> LogLevelFilter {
    match f {
        LogLevelFilter::All => LogLevelFilter::Error,
        LogLevelFilter::Error => LogLevelFilter::Warn,
        LogLevelFilter::Warn => LogLevelFilter::Info,
        LogLevelFilter::Info => LogLevelFilter::All,
    }
}

pub open spec fn next_source(f: LogSourceFilter) -> LogSourceFilter {
    match f {
        LogSourceFilter::All => LogSourceFilter::Journal,
        LogSourceFilter::Journal => LogSourceFilter::Syslog,
        LogSourceFilter::Syslog => LogSourceFilter::Dmesg,
        LogSourceFilter::Dmesg => LogSourceFilter::All,
    }
}

pub open spec fn next_service_state(s: ServiceState) -> ServiceState {
    match s {
        ServiceState::Running => ServiceState::Failed,
        ServiceState::Failed => ServiceState::All,
        ServiceState::All => ServiceState::Running,
    }
}

pub open spec fn next_scan_depth(d: usize) -> usize {
    if d == 1 {
        2
    } else if d == 2 {
        3
    } else {
        1
    }
}

/// A `systemctl` verb the services tab offers.
#[derive(Clone, Copy, Debug, PartialEq, Eq, Structural)]
pub enum ServiceCommand {
    Restart,
    Start,
    Stop,
    Enable,
    Disable,
    Mask,
    Unmask,
}

pub open spec fn service_command_word(c: ServiceCommand) -> Seq<char> {
    match c {
        ServiceCommand::Restart => "restart"@,
        ServiceCommand::Start => "start"@,
        ServiceCommand::Stop => "stop"@,
        ServiceCommand::Enable => "enable"@,
        ServiceCommand::Disable => "disable"@,
        ServiceCommand::Mask => "mask"@,
        ServiceCommand::Unmask => "unmask"@,
    }
}

/// The `systemctl` verb of a service command.
pub fn service_command_name(c: ServiceCommand) -> (s: &'static str)
    ensures
        s@ == service_command_word(c),
{
    match c {
        ServiceCommand::Restart => "restart",
        ServiceCommand::Start => "start",
        ServiceCommand::Stop => "stop",
        ServiceCommand::Enable => "enable",
        ServiceCommand::Disable => "disable",
        ServiceCommand::Mask => "mask",
        ServiceCommand::Unmask => "unmask",
    }
}

/// Work a transition asks the caller to do, in order.
pub enum Effect {
    /// Collect a fresh snapshot.
    Refresh,
    /// Reload open files, ports, command line and history of the selected process.
    RefreshProcessDetails,
    /// Reload logs and failure details of the selected service.
    RefreshServiceDetails,
    /// Reload the journal, syslog and kernel logs.
    RefreshLogsView,
    /// Start the tab-slide animation.
    StartTabAnimation,
    /// Run DNS, ping, traceroute and HTTP probe against the target text.
    RunNetworkTools(String),
    /// Pin the selected process to the CPU core the text names.
    ApplyPin(String),
    /// Set the selected process's nice value to what the text names.
    ApplyRenice(String),
    /// Signal the selected process: SIGKILL when true, SIGTERM otherwise.
    KillProcess(bool),
    /// End the selected connection.
    KillConnection,
    /// Block the selected connection's remote address.
    BlockRemoteIp,
    /// Scan directory sizes and large files of the selected disk.
    ScanDiskDirs,
    /// Run a `systemctl` verb on the selected service.
    ServiceAction(ServiceCommand),
}

pub enum EffectView {
    Refresh,
    RefreshProcessDetails,
    RefreshServiceDetails,
    RefreshLogsView,
    StartTabAnimation,
    RunNetworkTools(Seq<char>),
    ApplyPin(Seq<char>),
    ApplyRenice(Seq<char>),
    KillProcess(bool),
    KillConnection,
    BlockRemoteIp,
    ScanDiskDirs,
    ServiceAction(ServiceCommand),
}

impl View for Effect {
    type V = EffectView;

    open spec fn view(&self) -> EffectView {
        match self {
            Effect::Refresh => EffectView::Refresh,
            Effect::RefreshProcessDetails => EffectView::RefreshProcessDetails,
            Effect::RefreshServiceDetails => EffectView::RefreshServiceDetails,
            Effect::RefreshLogsView => EffectView::RefreshLogsView,
            Effect::StartTabAnimation => EffectView::StartTabAnimation,
            Effect::RunNetworkTools(s) => EffectView::RunNetworkTools(s@),
            Effect::ApplyPin(s) => EffectView::ApplyPin(s@),
            Effect::ApplyRenice(s) => EffectView::ApplyRenice(s@),
            Effect::KillProcess(f) => EffectView::KillProcess(*f),
            Effect::KillConnection => EffectView::KillConnection,
            Effect::BlockRemoteIp => EffectView::BlockRemoteIp,
            Effect::ScanDiskDirs => EffectView::ScanDiskDirs,
            Effect::ServiceAction(c) => EffectView::ServiceAction(*c),
        }
    }
}

pub open spec fn effect_views(v: Seq<Effect>) -> Seq<EffectView> {
    v.map_values(|e: Effect| e@)
}

/// The effects that entering a tab asks for: fresh details on the processes and services
/// tabs, fresh logs on the logs tab.
pub open spec fn entry_effects(t: Tab) -> Seq<EffectView> {
    if t == Tab::Services {
        seq![EffectView::RefreshServiceDetails]
    } else if t == Tab::Processes {
        seq![EffectView::RefreshProcessDetails]
    } else if t == Tab::Logs {
        seq![EffectView::RefreshLogsView]
    } else {
        Seq::empty()
    }
}

/// How many rows each scrollable list holds now, as the caller sees its data.
#[derive(Clone, Copy)]
pub struct RowCounts {
    /// Whether a snapshot has been collected.
    pub snapshot_loaded: bool,
    /// Rows of the process view (those passing the name filter).
    pub process_rows: usize,
    pub containers: usize,
    /// Connections passing the state filter.
    pub connections: usize,
    pub disks: usize,
    pub services: usize,
}

/// `min(x + 1, n - 1)` with `n - 1` saturating at 0.
pub open spec fn step_down(x: usize, n: usize) -> usize {
    let max = if n == 0 {
        0
    } else {
        (n - 1) as usize
    };
    if x < max {
        (x + 1) as usize
    } else {
        max
    }
}

/// The last row index of a list of `n` rows, 0 when empty.
pub open spec fn last_row(n: usize) -> usize {
    if n == 0 {
        0
    } else {
        (n - 1) as usize
    }
}

fn step_down_exec(x: usize, n: usize) -> (r: usize)
    ensures
        r == step_down(x, n),
{
    let max = if n == 0 {
        0
    } else {
        n - 1
    };
    if x < max {
        x + 1
    } else {
        max
    }
}

/// Scroll position that keeps the log view pinned to its newest line.
pub open spec fn logs_bottom() -> usize {
    (usize::MAX / 4) as usize
}

/// The selected row of each scrollable list, and whether the log view follows new lines.
#[derive(Clone, Copy, Debug, PartialEq, Eq, Structural)]
pub struct Scrolls {
    pub process: usize,
    pub container: usize,
    pub network: usize,
    pub connection: usize,
    pub disk: usize,
    pub service: usize,
    pub logs: usize,
    pub logs_autoscroll: bool,
}

/// The dashboard state that key presses and refreshes change.
pub struct UiState {
    pub active_tab: Tab,
    pub scroll: Scrolls,
    pub process_sort: ProcessSort,
    pub process_view: ProcessViewMode,
    pub process_filter: String,
    pub filter_input: bool,
    pub renice_input: bool,
    pub renice_value: String,
    pub pin_input: bool,
    pub pin_core_value: String,
    pub network_tool_input: bool,
    pub network_tool_value: String,
    pub logs_regex_input: bool,
    pub logs_query: String,
    pub logs_level_filter: LogLevelFilter,
    pub logs_source_filter: LogSourceFilter,
    pub connection_state_filter: ConnectionStateFilter,
    pub service_state_filter: ServiceState,
    pub pending_g: bool,
    pub status_line: String,
    pub animation_frame: u32,
    pub tab_transition: Option<(Tab, u32)>,
    pub dir_scan_depth: usize,
    pub dir_scan_target: Option<String>,
    pub disk_scan_in_progress: bool,
    pub disk_scan_progress: Option<String>,
    pub dir_scan_rows: Vec<(String, u64)>,
    pub large_file_rows: Vec<(String, u64)>,
    pub logs_journal: Vec<String>,
    pub logs_syslog: Vec<String>,
    pub logs_dmesg: Vec<String>,
    pub error_count_history: Vec<u32>,
    pub error_spike: Option<String>,
}


pub open spec fn pair_views(v: Seq<(String, u64)>) -> Seq<(Seq<char>, u64)> {
    v.map_values(|p: (String, u64)| (p.0@, p.1))
}

pub open spec fn opt_view(o: Option<String>) -> Option<Seq<char>> {
    match o {
        Some(s) => Some(s@),
        None => None,
    }
}

/// Plain model of the dashboard state.
pub struct UiStateView {
    pub active_tab: Tab,
    pub scroll: Scrolls,
    pub process_sort: ProcessSort,
    pub process_view: ProcessViewMode,
    pub process_filter: Seq<char>,
    pub filter_input: bool,
    pub renice_input: bool,
    pub renice_value: Seq<char>,
    pub pin_input: bool,
    pub pin_core_value: Seq<char>,
    pub network_tool_input: bool,
    pub network_tool_value: Seq<char>,
    pub logs_regex_input: bool,
    pub logs_query: Seq<char>,
    pub logs_level_filter: LogLevelFilter,
    pub logs_source_filter: LogSourceFilter,
    pub connection_state_filter: ConnectionStateFilter,
    pub service_state_filter: ServiceState,
    pub pending_g: bool,
    pub status_line: Seq<char>,
    pub animation_frame: u32,
    pub tab_transition: Option<(Tab, u32)>,
    pub dir_scan_depth: usize,
    pub dir_scan_target: Option<Seq<char>>,
    pub disk_scan_in_progress: bool,
    pub disk_scan_progress: Option<Seq<char>>,
    pub dir_scan_rows: Vec<(String, u64)>,
    pub large_file_rows: Vec<(String, u64)>,
    pub logs_journal: Vec<String>,
    pub logs_syslog: Vec<String>,
    pub logs_dmesg: Vec<String>,
    pub error_count_history: Seq<u32>,
    pub error_spike: Option<Seq<char>>,
}

impl View for UiState {
    type V = UiStateView;

    open spec fn view(&self) -> UiStateView {
        UiStateView {
            active_tab: self.active_tab,
            scroll: self.scroll,
            process_sort: self.process_sort,
            process_view: self.process_view,
            process_filter: self.process_filter@,
            filter_input: self.filter_input,
            renice_input: self.renice_input,
            renice_value: self.renice_value@,
            pin_input: self.pin_input,
            pin_core_value: self.pin_core_value@,
            network_tool_input: self.network_tool_input,
            network_tool_value: self.network_tool_value@,
            logs_regex_input: self.logs_regex_input,
            logs_query: self.logs_query@,
            logs_level_filter: self.logs_level_filter,
            logs_source_filter: self.logs_source_filter,
            connection_state_filter: self.connection_state_filter,
            service_state_filter: self.service_state_filter,
            pending_g: self.pending_g,
            status_line: self.status_line@,
            animation_frame: self.animation_frame,
            tab_transition: self.tab_transition,
            dir_scan_depth: self.dir_scan_depth,
            dir_scan_target: opt_view(self.dir_scan_target),
            disk_scan_in_progress: self.disk_scan_in_progress,
            disk_scan_progress: opt_view(self.disk_scan_progress),
            dir_scan_rows: self.dir_scan_rows,
            large_file_rows: self.large_file_rows,
            logs_journal: self.logs_journal,
            logs_syslog: self.logs_syslog,
            logs_dmesg: self.logs_dmesg,
            error_count_history: self.error_count_history@,
            error_spike: opt_view(self.error_spike),
        }
    }
}

impl UiState {
    /// The state the dashboard starts in: overview tab, CPU sort, flat view, running
    /// services, log autoscroll on, scan depth 2.
    pub fn new() -> (s: Self)
        ensures
            s.active_tab == Tab::Overview,
            s.scroll == (Scrolls {
                process: 0,
                container: 0,
                network: 0,
                connection: 0,
                disk: 0,
                service: 0,
                logs: 0,
                logs_autoscroll: true,
            }),
            s.process_sort == ProcessSort::Cpu,
            s.process_view == ProcessViewMode::Flat,
            s.process_filter@.len() == 0,
            !s.filter_input && !s.renice_input && !s.pin_input && !s.network_tool_input && !s.logs_regex_input,
            s.renice_value@.len() == 0 && s.pin_core_value@.len() == 0 && s.network_tool_value@.len() == 0,
            s.logs_query@.len() == 0,
            s.logs_level_filter == LogLevelFilter::All,
            s.logs_source_filter == LogSourceFilter::All,
            s.connection_state_filter == ConnectionStateFilter::All,
            s.service_state_filter == ServiceState::Running,
            !s.pending_g,
            s.status_line@ == "Loading system snapshot..."@,
            s.animation_frame == 0,
            s.tab_transition is None,
            s.dir_scan_depth == 2,
            s.dir_scan_target is None,
            !s.disk_scan_in_progress,
            s.disk_scan_progress is None,
            s.dir_scan_rows@.len() == 0 && s.large_file_rows@.len() == 0,
            s.logs_journal@.len() == 0 && s.logs_syslog@.len() == 0 && s.logs_dmesg@.len() == 0,
            s.error_count_history@.len() == 0,
            s.error_spike is None,
    {
        UiState {
            active_tab: Tab::Overview,
            scroll: Scrolls {
                process: 0,
                container: 0,
                network: 0,
                connection: 0,
                disk: 0,
                service: 0,
                logs: 0,
                logs_autoscroll: true,
            },
            process_sort: ProcessSort::Cpu,
            process_view: ProcessViewMode::Flat,
            process_filter: String::new(),
            filter_input: false,
            renice_input: false,
            renice_value: String::new(),
            pin_input: false,
            pin_core_value: String::new(),
            network_tool_input: false,
            network_tool_value: String::new(),
            logs_regex_input: false,
            logs_query: String::new(),
            logs_level_filter: LogLevelFilter::All,
            logs_source_filter: LogSourceFilter::All,
            connection_state_filter: ConnectionStateFilter::All,
            service_state_filter: ServiceState::Running,
            pending_g: false,
            status_line: string_of(&chars_of("Loading system snapshot...")),
            animation_frame: 0,
            tab_transition: None,
            dir_scan_depth: 2,
            dir_scan_target: None,
            disk_scan_in_progress: false,
            disk_scan_progress: None,
            dir_scan_rows: Vec::new(),
            large_file_rows: Vec::new(),
            logs_journal: Vec::new(),
            logs_syslog: Vec::new(),
            logs_dmesg: Vec::new(),
            error_count_history: Vec::new(),
            error_spike: None,
        }
    }

    pub fn cycle_process_sort(&mut self)
        ensures
            final(self)@ == (UiStateView { process_sort: next_sort(old(self).process_sort), ..old(self)@ }),
    {
        self.process_sort = match self.process_sort {
            ProcessSort::Cpu => ProcessSort::Memory,
            ProcessSort::Memory => ProcessSort::Pid,
            ProcessSort::Pid => ProcessSort::Name,
            ProcessSort::Name => ProcessSort::Cpu,
        };
    }

    pub fn cycle_process_view(&mut self, effects: &mut Vec<Effect>)
        ensures
            final(self)@ == (UiStateView { process_view: next_view(old(self).process_view),
                scroll: Scrolls { process: 0, ..old(self).scroll },
                ..old(self)@
             }),
            effect_views(final(effects)@) == effect_views(old(effects)@).push(EffectView::RefreshProcessDetails),
    {
        self.process_view = match self.process_view {
            ProcessViewMode::Flat => ProcessViewMode::Tree,
            ProcessViewMode::Tree => ProcessViewMode::User,
            ProcessViewMode::User => ProcessViewMode::Service,
            ProcessViewMode::Service => ProcessViewMode::Container,
            ProcessViewMode::Container => ProcessViewMode::Flat,
        };
        self.scroll.process = 0;
        push_effect(effects, Effect::RefreshProcessDetails);
    }

    /// Moves to the next tab, remembering where the slide started.
    pub fn next_tab(&mut self, effects: &mut Vec<Effect>)
        ensures
            final(self)@ == (UiStateView {
                active_tab: tab_at(tab_index(old(self).active_tab) + 1),
                tab_transition: Some((old(self).active_tab, old(self).animation_frame)),
                ..old(self)@
            }),
            effect_views(final(effects)@) == effect_views(old(effects)@).push(EffectView::StartTabAnimation)
                + entry_effects(final(self).active_tab),
    {
        let from = self.active_tab;
        self.active_tab = next_tab_of(self.active_tab);
        self.tab_transition = Some((from, self.animation_frame));
        push_effect(effects, Effect::StartTabAnimation);
        push_entry_effects(self.active_tab, effects);
    }

    /// Moves to the previous tab, remembering where the slide started.
    pub fn previous_tab(&mut self, effects: &mut Vec<Effect>)
        ensures
            final(self)@ == (UiStateView {
                active_tab: tab_at(tab_index(old(self).active_tab) + 11),
                tab_transition: Some((old(self).active_tab, old(self).animation_frame)),
                ..old(self)@
            }),
            effect_views(final(effects)@) == effect_views(old(effects)@).push(EffectView::StartTabAnimation)
                + entry_effects(final(self).active_tab),
    {
        let from = self.active_tab;
        self.active_tab = previous_tab_of(self.active_tab);
        self.tab_transition = Some((from, self.animation_frame));
        push_effect(effects, Effect::StartTabAnimation);
        push_entry_effects(self.active_tab, effects);
    }
}

/// Selection after moving one row down in tab `t`.
pub open spec fn scroll_down_state(t: Tab, s: Scrolls, c: RowCounts) -> Scrolls {
    match t {
        Tab::Processes => if c.snapshot_loaded {
            Scrolls { process: step_down(s.process, c.process_rows), ..s }
        } else {
            s
        },
        Tab::Containers => if c.snapshot_loaded {
            Scrolls { container: step_down(s.container, c.containers), ..s }
        } else {
            s
        },
        Tab::Network => Scrolls { connection: step_down(s.connection, c.connections), ..s },
        Tab::Disk => if c.snapshot_loaded {
            Scrolls { disk: step_down(s.disk, c.disks), ..s }
        } else {
            s
        },
        Tab::Services => if c.snapshot_loaded {
            Scrolls { service: step_down(s.service, c.services), ..s }
        } else {
            s
        },
        Tab::Logs => Scrolls {
            logs_autoscroll: false,
            logs: if s.logs < usize::MAX {
                (s.logs + 1) as usize
            } else {
                s.logs
            },
            ..s
        },
        _ => s,
    }
}

/// Effects of moving the selection down or to the bottom: new details for the selected
/// process or service, once a snapshot is loaded.
pub open spec fn selection_effects(t: Tab, c: RowCounts) -> Seq<EffectView> {
    if t == Tab::Processes && c.snapshot_loaded {
        seq![EffectView::RefreshProcessDetails]
    } else if t == Tab::Services && c.snapshot_loaded {
        seq![EffectView::RefreshServiceDetails]
    } else {
        Seq::empty()
    }
}

/// Effects of moving the selection up or to the top: these ask for new details whether
/// or not a snapshot is loaded.
pub open spec fn selection_effects_always(t: Tab) -> Seq<EffectView> {
    if t == Tab::Processes {
        seq![EffectView::RefreshProcessDetails]
    } else if t == Tab::Services {
        seq![EffectView::RefreshServiceDetails]
    } else {
        Seq::empty()
    }
}

pub open spec fn dec(x: usize) -> usize {
    if x > 0 {
        (x - 1) as usize
    } else {
        0
    }
}

/// Selection after moving one row up in tab `t`.
pub open spec fn scroll_up_state(t: Tab, s: Scrolls) -> Scrolls {
    match t {
        Tab::Processes => Scrolls { process: dec(s.process), ..s },
        Tab::Containers => Scrolls { container: dec(s.container), ..s },
        Tab::Network => Scrolls { connection: dec(s.connection), ..s },
        Tab::Disk => Scrolls { disk: dec(s.disk), ..s },
        Tab::Services => Scrolls { service: dec(s.service), ..s },
        Tab::Logs => Scrolls { logs_autoscroll: false, logs: dec(s.logs), ..s },
        _ => s,
    }
}

/// Selection after jumping to the first row of tab `t`.
pub open spec fn scroll_top_state(t: Tab, s: Scrolls) -> Scrolls {
    match t {
        Tab::Processes => Scrolls { process: 0, ..s },
        Tab::Containers => Scrolls { container: 0, ..s },
        Tab::Network => Scrolls { connection: 0, ..s },
        Tab::Disk => Scrolls { disk: 0, ..s },
        Tab::Services => Scrolls { service: 0, ..s },
        Tab::Logs => Scrolls { logs_autoscroll: false, logs: 0, ..s },
        _ => s,
    }
}

/// Selection after jumping to the last row of tab `t` (the log view follows new lines).
pub open spec fn scroll_bottom_state(t: Tab, s: Scrolls, c: RowCounts) -> Scrolls {
    match t {
        Tab::Processes => if c.snapshot_loaded {
            Scrolls { process: last_row(c.process_rows), ..s }
        } else {
            s
        },
        Tab::Containers => if c.snapshot_loaded {
            Scrolls { container: last_row(c.containers), ..s }
        } else {
            s
        },
        Tab::Network => Scrolls { connection: last_row(c.connections), ..s },
        Tab::Disk => if c.snapshot_loaded {
            Scrolls { disk: last_row(c.disks), ..s }
        } else {
            s
        },
        Tab::Services => if c.snapshot_loaded {
            Scrolls { service: last_row(c.services), ..s }
        } else {
            s
        },
        Tab::Logs => Scrolls { logs_autoscroll: true, logs: logs_bottom(), ..s },
        _ => s,
    }
}

/// Moves the selection of tab `t` one row down.
pub fn scrolled_down(t: Tab, s: Scrolls, c: RowCounts) -> (r: Scrolls)
    ensures
        r == scroll_down_state(t, s, c),
{
    let mut r = s;
    match t {
        Tab::Processes => {
            if c.snapshot_loaded {
                r.process = step_down_exec(s.process, c.process_rows);
            }
        },
        Tab::Containers => {
            if c.snapshot_loaded {
                r.container = step_down_exec(s.container, c.containers);
            }
        },
        Tab::Network => {
            r.connection = step_down_exec(s.connection, c.connections);
        },
        Tab::Disk => {
            if c.snapshot_loaded {
                r.disk = step_down_exec(s.disk, c.disks);
            }
        },
        Tab::Services => {
            if c.snapshot_loaded {
                r.service = step_down_exec(s.service, c.services);
            }
        },
        Tab::Logs => {
            r.logs_autoscroll = false;
            r.logs = s.logs.saturating_add(1);
        },
        _ => {},
    }
    r
}

/// Moves the selection of tab `t` one row up.
pub fn scrolled_up(t: Tab, s: Scrolls) -> (r: Scrolls)
    ensures
        r == scroll_up_state(t, s),
{
    let mut r = s;
    match t {
        Tab::Processes => r.process = s.process.saturating_sub(1),
        Tab::Containers => r.container = s.container.saturating_sub(1),
        Tab::Network => r.connection = s.connection.saturating_sub(1),
        Tab::Disk => r.disk = s.disk.saturating_sub(1),
        Tab::Services => r.service = s.service.saturating_sub(1),
        Tab::Logs => {
            r.logs_autoscroll = false;
            r.logs = s.logs.saturating_sub(1);
        },
        _ => {},
    }
    r
}

/// Moves the selection of tab `t` to its first row.
pub fn scrolled_top(t: Tab, s: Scrolls) -> (r: Scrolls)
    ensures
        r == scroll_top_state(t, s),
{
    let mut r = s;
    match t {
        Tab::Processes => r.process = 0,
        Tab::Containers => r.container = 0,
        Tab::Network => r.connection = 0,
        Tab::Disk => r.disk = 0,
        Tab::Services => r.service = 0,
        Tab::Logs => {
            r.logs_autoscroll = false;
            r.logs = 0;
        },
        _ => {},
    }
    r
}

/// Moves the selection of tab `t` to its last row.
pub fn scrolled_bottom(t: Tab, s: Scrolls, c: RowCounts) -> (r: Scrolls)
    ensures
        r == scroll_bottom_state(t, s, c),
{
    let mut r = s;
    match t {
        Tab::Processes => {
            if c.snapshot_loaded {
                r.process = c.process_rows.saturating_sub(1);
            }
        },
        Tab::Containers => {
            if c.snapshot_loaded {
                r.container = c.containers.saturating_sub(1);
            }
        },
        Tab::Network => {
            r.connection = c.connections.saturating_sub(1);
        },
        Tab::Disk => {
            if c.snapshot_loaded {
                r.disk = c.disks.saturating_sub(1);
            }
        },
        Tab::Services => {
            if c.snapshot_loaded {
                r.service = c.services.saturating_sub(1);
            }
        },
        Tab::Logs => {
            r.logs_autoscroll = true;
            r.logs = usize::MAX / 4;
        },
        _ => {},
    }
    r
}

fn push_selection_effects(t: Tab, loaded: bool, effects: &mut Vec<Effect>)
    ensures
        effect_views(final(effects)@) == effect_views(old(effects)@) + (if t == Tab::Processes && loaded {
            seq![EffectView::RefreshProcessDetails]
        } else if t == Tab::Services && loaded {
            seq![EffectView::RefreshServiceDetails]
        } else {
            Seq::empty()
        }),
{
    if t == Tab::Processes && loaded {
        push_effect(effects, Effect::RefreshProcessDetails);
    } else if t == Tab::Services && loaded {
        push_effect(effects, Effect::RefreshServiceDetails);
    }
    assert(effect_views(effects@) =~= effect_views(old(effects)@) + (if t == Tab::Processes && loaded {
        seq![EffectView::RefreshProcessDetails]
    } else if t == Tab::Services && loaded {
        seq![EffectView::RefreshServiceDetails]
    } else {
        Seq::empty()
    }));
}

impl UiState {
    /// Moves the selection of the active tab one row down.
    pub fn scroll_down(&mut self, c: RowCounts, effects: &mut Vec<Effect>)
        ensures
            final(self)@ == (UiStateView { scroll: scroll_down_state(old(self).active_tab, old(self).scroll, c), ..old(self)@ }),
            effect_views(final(effects)@) == effect_views(old(effects)@) + selection_effects(old(self).active_tab, c),
    {
        self.scroll = scrolled_down(self.active_tab, self.scroll, c);
        push_selection_effects(self.active_tab, c.snapshot_loaded, effects);
    }

    /// Moves the selection of the active tab one row up.
    pub fn scroll_up(&mut self, effects: &mut Vec<Effect>)
        ensures
            final(self)@ == (UiStateView { scroll: scroll_up_state(old(self).active_tab, old(self).scroll), ..old(self)@ }),
            effect_views(final(effects)@) == effect_views(old(effects)@) + selection_effects_always(old(self).active_tab),
    {
        self.scroll = scrolled_up(self.active_tab, self.scroll);
        push_selection_effects(self.active_tab, true, effects);
    }

    /// Moves the selection of the active tab to its first row.
    pub fn scroll_top(&mut self, effects: &mut Vec<Effect>)
        ensures
            final(self)@ == (UiStateView { scroll: scroll_top_state(old(self).active_tab, old(self).scroll), ..old(self)@ }),
            effect_views(final(effects)@) == effect_views(old(effects)@) + selection_effects_always(old(self).active_tab),
    {
        self.scroll = scrolled_top(self.active_tab, self.scroll);
        push_selection_effects(self.active_tab, true, effects);
    }

    /// Moves the selection of the active tab to its last row.
    pub fn scroll_bottom(&mut self, c: RowCounts, effects: &mut Vec<Effect>)
        ensures
            final(self)@ == (UiStateView { scroll: scroll_bottom_state(old(self).active_tab, old(self).scroll, c), ..old(self)@ }),
            effect_views(final(effects)@) == effect_views(old(effects)@) + selection_effects(old(self).active_tab, c),
    {
        self.scroll = scrolled_bottom(self.active_tab, self.scroll, c);
        push_selection_effects(self.active_tab, c.snapshot_loaded, effects);
    }

    pub fn cycle_connection_state_filter(&mut self)
        ensures
            final(self)@ == (UiStateView {
                connection_state_filter: next_connection_filter(old(self).connection_state_filter),
                scroll: Scrolls { connection: 0, ..old(self).scroll },
                ..old(self)@
            }),
    {
        self.connection_state_filter = match self.connection_state_filter {
            ConnectionStateFilter::All => ConnectionStateFilter::Established,
            ConnectionStateFilter::Established => ConnectionStateFilter::Listen,
            ConnectionStateFilter::Listen => ConnectionStateFilter::Closing,
            ConnectionStateFilter::Closing => ConnectionStateFilter::Suspicious,
            ConnectionStateFilter::Suspicious => ConnectionStateFilter::All,
        };
        self.scroll.connection = 0;
    }

    pub fn cycle_logs_level_filter(&mut self)
        ensures
            final(self)@ == (UiStateView { logs_level_filter: next_level(old(self).logs_level_filter),
                scroll: Scrolls { logs: 0, ..old(self).scroll },
                ..old(self)@
             }),
    {
        self.logs_level_filter = match self.logs_level_filter {
            LogLevelFilter::All => LogLevelFilter::Error,
            LogLevelFilter::Error => LogLevelFilter::Warn,
            LogLevelFilter::Warn => LogLevelFilter::Info,
            LogLevelFilter::Info => LogLevelFilter::All,
        };
        self.scroll.logs = 0;
    }

    pub fn cycle_logs_source_filter(&mut self)
        ensures
            final(self)@ == (UiStateView { logs_source_filter: next_source(old(self).logs_source_filter),
                scroll: Scrolls { logs: 0, ..old(self).scroll },
                ..old(self)@
             }),
    {
        self.logs_source_filter = match self.logs_source_filter {
            LogSourceFilter::All => LogSourceFilter::Journal,
            LogSourceFilter::Journal => LogSourceFilter::Syslog,
            LogSourceFilter::Syslog => LogSourceFilter::Dmesg,
            LogSourceFilter::Dmesg => LogSourceFilter::All,
        };
        self.scroll.logs = 0;
    }

    /// Moves to the next service state filter; the list is collected anew.
    pub fn cycle_service_state_filter(&mut self, effects: &mut Vec<Effect>)
        ensures
            final(self)@ == (UiStateView { service_state_filter: next_service_state(old(self).service_state_filter),
                scroll: Scrolls { service: 0, ..old(self).scroll },
                ..old(self)@
             }),
            effect_views(final(effects)@) == effect_views(old(effects)@) + seq![EffectView::Refresh, EffectView::RefreshServiceDetails],
    {
        self.service_state_filter = match self.service_state_filter {
            ServiceState::Running => ServiceState::Failed,
            ServiceState::Failed => ServiceState::All,
            ServiceState::All => ServiceState::Running,
        };
        self.scroll.service = 0;
        push_effect(effects, Effect::Refresh);
        push_effect(effects, Effect::RefreshServiceDetails);
        assert(effect_views(effects@) =~= effect_views(old(effects)@) + seq![EffectView::Refresh, EffectView::RefreshServiceDetails]);
    }

    pub fn toggle_logs_autoscroll(&mut self)
        ensures
            final(self)@ == (UiStateView {
                scroll: Scrolls {
                    logs_autoscroll: !old(self).scroll.logs_autoscroll,
                    logs: if !old(self).scroll.logs_autoscroll { logs_bottom() } else { old(self).scroll.logs },
                    ..old(self).scroll
                },
                ..old(self)@
            }),
    {
        self.scroll.logs_autoscroll = !self.scroll.logs_autoscroll;
        if self.scroll.logs_autoscroll {
            self.scroll.logs = usize::MAX / 4;
        }
    }

    /// Moves to the next disk scan depth (1, 2, 3, then 1 again) and rescans.
    pub fn cycle_disk_scan_depth(&mut self, effects: &mut Vec<Effect>)
        ensures
            final(self)@ == (UiStateView { dir_scan_depth: next_scan_depth(old(self).dir_scan_depth), ..old(self)@ }),
            effect_views(final(effects)@) == effect_views(old(effects)@).push(EffectView::ScanDiskDirs),
    {
        self.dir_scan_depth = match self.dir_scan_depth {
            1 => 2,
            2 => 3,
            _ => 1,
        };
        push_effect(effects, Effect::ScanDiskDirs);
    }
}

/// Appends one effect.
pub fn push_effect(effects: &mut Vec<Effect>, e: Effect)
    ensures
        effect_views(final(effects)@) == effect_views(old(effects)@).push(e@),
{
    let ghost ev = e@;
    effects.push(e);
    assert(effect_views(effects@) =~= effect_views(old(effects)@).push(ev));
}

pub fn push_entry_effects(t: Tab, effects: &mut Vec<Effect>)
    ensures
        effect_views(final(effects)@) == effect_views(old(effects)@) + entry_effects(t),
{
    if t == Tab::Services {
        push_effect(effects, Effect::RefreshServiceDetails);
    } else if t == Tab::Processes {
        push_effect(effects, Effect::RefreshProcessDetails);
    } else if t == Tab::Logs {
        push_effect(effects, Effect::RefreshLogsView);
    }
    assert(effect_views(effects@) =~= effect_views(old(effects)@) + entry_effects(t));
}

} // verus!
