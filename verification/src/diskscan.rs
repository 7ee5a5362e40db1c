//! The background scan of the selected disk: starting it, and folding in what the worker
//! reports.
use crate::actions::selected;
use crate::app::{UiState, UiStateView, opt_view};
use crate::text::{chars_of, push_decimal, push_str, spec_decimal, string_of, string_views};
use vstd::prelude::*;

verus! {

/// What the scan worker reports.
pub enum DiskScanEvent {
    /// What it is working on now.
    Progress(String),
    /// Directory sizes and large files of a mount.
    Complete { mount: String, dir_rows: Vec<(String, u64)>, large_rows: Vec<(String, u64)> },
    /// Why it found nothing.
    Failed(String),
    /// The worker went away without a result.
    Disconnected,
}

/// Why a scan cannot start, or the mount it scans: the selected disk's.
pub open spec fn scan_start(s: UiStateView, loaded: bool, mounts: Seq<Seq<char>>) -> Result<Seq<char>, Seq<char>> {
    if s.disk_scan_in_progress {
        Err("Disk scan already running"@)
    } else if !loaded {
        Err("No snapshot loaded"@)
    } else if mounts.len() == 0 {
        Err("No disk selected"@)
    } else {
        Ok(mounts[selected(s.scroll.disk, mounts.len() as usize)->0 as int])
    }
}

pub open spec fn scan_started_text(mount: Seq<char>, depth: usize) -> Seq<char> {
    "Starting async disk scan for "@ + mount + " (depth "@ + spec_decimal(depth as nat) + ")"@
}

/// State after asking for a scan of the selected disk.
pub open spec fn scan_start_state(s: UiStateView, loaded: bool, mounts: Seq<Seq<char>>) -> UiStateView {
    match scan_start(s, loaded, mounts) {
        Err(m) => UiStateView { status_line: m, ..s },
        Ok(mount) => UiStateView {
            dir_scan_target: Some(mount),
            disk_scan_in_progress: true,
            disk_scan_progress: Some("queued"@),
            status_line: scan_started_text(mount, s.dir_scan_depth),
            ..s
        },
    }
}

pub open spec fn scan_done_text(mount: Seq<char>, depth: usize, dirs: nat, files: nat) -> Seq<char> {
    "Disk scan complete for "@ + mount + " (depth "@ + spec_decimal(depth as nat) + ", "@ + spec_decimal(dirs)
        + " dirs, "@ + spec_decimal(files) + " files)"@
}

/// The worker's final report for a mount: `Failed` when both lists are empty.
pub fn scan_result(mount: String, dir_rows: Vec<(String, u64)>, large_rows: Vec<(String, u64)>) -> (e: DiskScanEvent)
    ensures
        dir_rows@.len() == 0 && large_rows@.len() == 0 ==> (e matches DiskScanEvent::Failed(m) && m@
            == "No explorer data for "@ + mount@),
        !(dir_rows@.len() == 0 && large_rows@.len() == 0) ==> (e matches DiskScanEvent::Complete {
            mount: m,
            dir_rows: d,
            large_rows: l,
        } && m@ == mount@ && d == dir_rows && l == large_rows),
{
    if dir_rows.len() == 0 && large_rows.len() == 0 {
        let mut out: Vec<char> = Vec::new();
        push_str(&mut out, "No explorer data for ");
        push_str(&mut out, mount.as_str());
        DiskScanEvent::Failed(string_of(&out))
    } else {
        DiskScanEvent::Complete { mount, dir_rows, large_rows }
    }
}

/// State after a worker report.
pub open spec fn scan_event_state(s: UiStateView, e: DiskScanEvent) -> UiStateView {
    match e {
        DiskScanEvent::Progress(p) => UiStateView { disk_scan_progress: Some(p@), ..s },
        DiskScanEvent::Complete { mount, dir_rows, large_rows } => UiStateView {
            dir_scan_target: Some(mount@),
            dir_scan_rows: dir_rows,
            large_file_rows: large_rows,
            disk_scan_in_progress: false,
            disk_scan_progress: None,
            status_line: scan_done_text(mount@, s.dir_scan_depth, dir_rows@.len(), large_rows@.len()),
            ..s
        },
        DiskScanEvent::Failed(m) => UiStateView {
            disk_scan_in_progress: false,
            disk_scan_progress: None,
            status_line: m@,
            ..s
        },
        DiskScanEvent::Disconnected => UiStateView {
            disk_scan_in_progress: false,
            disk_scan_progress: None,
            status_line: "Disk scan worker disconnected"@,
            ..s
        },
    }
}

impl UiState {
    /// The mount to scan, or why no scan can start (see `scan_start`).
    pub fn scan_start_of(&self, loaded: bool, mounts: &Vec<String>) -> (r: Result<String, String>)
        ensures
            match r {
                Ok(m) => scan_start(self@, loaded, string_views(mounts@)) == Ok::<Seq<char>, Seq<char>>(m@),
                Err(m) => scan_start(self@, loaded, string_views(mounts@)) == Err::<Seq<char>, Seq<char>>(m@),
            },
    {
        if self.disk_scan_in_progress {
            return Err(string_of(&chars_of("Disk scan already running")));
        }
        if !loaded {
            return Err(string_of(&chars_of("No snapshot loaded")));
        }
        if mounts.len() == 0 {
            return Err(string_of(&chars_of("No disk selected")));
        }
        let i = if self.scroll.disk < mounts.len() - 1 {
            self.scroll.disk
        } else {
            mounts.len() - 1
        };
        Ok(string_of(&chars_of(mounts[i].as_str())))
    }

    #[verifier::spinoff_prover]
    fn start_scan_of(&mut self, mount: &String)
        ensures
            final(self)@ == (UiStateView {
                dir_scan_target: Some(mount@),
                disk_scan_in_progress: true,
                disk_scan_progress: Some("queued"@),
                status_line: scan_started_text(mount@, old(self).dir_scan_depth),
                ..old(self)@
            }),
    {
        let mut out: Vec<char> = Vec::new();
        push_str(&mut out, "Starting async disk scan for ");
        push_str(&mut out, mount.as_str());
        push_str(&mut out, " (depth ");
        push_decimal(&mut out, self.dir_scan_depth as u64);
        push_str(&mut out, ")");
        let status = string_of(&out);
        let target = string_of(&chars_of(mount.as_str()));
        let queued = string_of(&chars_of("queued"));
        self.dir_scan_target = Some(target);
        self.disk_scan_in_progress = true;
        self.disk_scan_progress = Some(queued);
        self.status_line = status;
    }

    /// Starts a scan of the selected disk: returns its mount and the depth to scan to, or
    /// reports why it cannot start.
    #[verifier::spinoff_prover]
    pub fn begin_disk_scan(&mut self, loaded: bool, mounts: &Vec<String>) -> (r: Option<(String, usize)>)
        ensures
            final(self)@ == scan_start_state(old(self)@, loaded, string_views(mounts@)),
            match scan_start(old(self)@, loaded, string_views(mounts@)) {
                Ok(m) => r matches Some(p) && p.0@ == m && p.1 == old(self).dir_scan_depth,
                Err(_) => r is None,
            },
    {
        match self.scan_start_of(loaded, mounts) {
            Err(m) => {
                self.status_line = m;
                None
            },
            Ok(mount) => {
                self.start_scan_of(&mount);
                Some((mount, self.dir_scan_depth))
            },
        }
    }

    #[verifier::spinoff_prover]
    fn end_scan(&mut self, status: String)
        ensures
            final(self)@ == (UiStateView {
                disk_scan_in_progress: false,
                disk_scan_progress: None,
                status_line: status@,
                ..old(self)@
            }),
    {
        self.disk_scan_in_progress = false;
        self.disk_scan_progress = None;
        self.status_line = status;
    }

    #[verifier::spinoff_prover]
    fn complete_scan(&mut self, mount: String, dir_rows: Vec<(String, u64)>, large_rows: Vec<(String, u64)>)
        ensures
            final(self)@ == scan_event_state(
                old(self)@,
                DiskScanEvent::Complete { mount, dir_rows, large_rows },
            ),
    {
        let mut out: Vec<char> = Vec::new();
        push_str(&mut out, "Disk scan complete for ");
        push_str(&mut out, mount.as_str());
        push_str(&mut out, " (depth ");
        push_decimal(&mut out, self.dir_scan_depth as u64);
        push_str(&mut out, ", ");
        push_decimal(&mut out, dir_rows.len() as u64);
        push_str(&mut out, " dirs, ");
        push_decimal(&mut out, large_rows.len() as u64);
        push_str(&mut out, " files)");
        let status = string_of(&out);
        self.dir_scan_target = Some(mount);
        self.dir_scan_rows = dir_rows;
        self.large_file_rows = large_rows;
        self.disk_scan_in_progress = false;
        self.disk_scan_progress = None;
        self.status_line = status;
    }

    /// Folds in a report of the scan worker; returns whether more reports are expected.
    #[verifier::spinoff_prover]
    pub fn apply_scan_event(&mut self, e: DiskScanEvent) -> (keep: bool)
        ensures
            final(self)@ == scan_event_state(old(self)@, e),
            keep == (e is Progress),
    {
        match e {
            DiskScanEvent::Progress(p) => {
                self.disk_scan_progress = Some(p);
                true
            },
            DiskScanEvent::Complete { mount, dir_rows, large_rows } => {
                self.complete_scan(mount, dir_rows, large_rows);
                false
            },
            DiskScanEvent::Failed(m) => {
                self.end_scan(m);
                false
            },
            DiskScanEvent::Disconnected => {
                self.end_scan(string_of(&chars_of("Disk scan worker disconnected")));
                false
            },
        }
    }
}

} // verus!
