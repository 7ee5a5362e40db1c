//! What the collector plugins share: how often they run, their metadata, their errors and
//! how their data is best shown.
use crate::text::{chars_of, push_str, string_of};
use std::time::Duration;
use vstd::prelude::*;

verus! {

/// When a collector runs: on a fixed interval, or only when asked.
#[derive(Debug, Clone, Copy, PartialEq, Eq)]
pub enum RefreshStrategy {
    Fixed(Duration),
    OnDemand,
}

/// Static description of a collector.
#[derive(Debug, Clone, Copy, PartialEq, Eq)]
pub struct CollectorMeta {
    pub id: &'static str,
    pub name: &'static str,
    pub strategy: RefreshStrategy,
    pub priority: u8,
}

/// How a collector's data is best shown.
#[derive(Debug, Clone, Copy, PartialEq, Eq, Structural)]
pub enum ViewHint {
    Gauge,
    Table,
    Sparkline,
}

/// Why a collector failed.
#[derive(Debug)]
pub enum CollectorError {
    DependencyMissing(String),
    CommandFailed { cmd: String, stderr: String },
    ParseFailure(String),
    Timeout(Duration),
}

/// The `Debug` text of a `Duration` (e.g. "1.5s"). The contract states nothing of the text:
/// std does not fix that format.
#[verifier::external_body]
fn duration_text(d: &Duration) -> String {
    format!("{d:?}")
}

impl CollectorError {
    /// The error's message.
    pub fn message(&self) -> (m: String)
        ensures
            self matches CollectorError::DependencyMissing(s) ==> m@ == "Dependency missing: "@ + s@,
            self matches CollectorError::CommandFailed { cmd, stderr } ==> m@ == "Command failed: "@ + cmd@
                + ", stderr: "@ + stderr@,
            self matches CollectorError::ParseFailure(s) ==> m@ == "Parse failure: "@ + s@,
            self is Timeout ==> m@.len() >= 16 && m@.take(16) == "Timed out after "@,
    {
        let mut out: Vec<char> = Vec::new();
        match self {
            CollectorError::DependencyMissing(s) => {
                push_str(&mut out, "Dependency missing: ");
                push_str(&mut out, s.as_str());
            },
            CollectorError::CommandFailed { cmd, stderr } => {
                push_str(&mut out, "Command failed: ");
                push_str(&mut out, cmd.as_str());
                push_str(&mut out, ", stderr: ");
                push_str(&mut out, stderr.as_str());
            },
            CollectorError::ParseFailure(s) => {
                push_str(&mut out, "Parse failure: ");
                push_str(&mut out, s.as_str());
            },
            CollectorError::Timeout(d) => {
                push_str(&mut out, "Timed out after ");
                let t = duration_text(d);
                push_str(&mut out, t.as_str());
                proof {
                    reveal_strlit("Timed out after ");
                    assert(out@.take(16) =~= "Timed out after "@);
                }
            },
        }
        string_of(&out)
    }
}

/// Whether a refresh round runs a collector: all but the on-demand ones.
pub fn runs_on_refresh(meta: &CollectorMeta) -> (b: bool)
    ensures
        b == !(meta.strategy is OnDemand),
{
    match meta.strategy {
        RefreshStrategy::OnDemand => false,
        RefreshStrategy::Fixed(_) => true,
    }
}

} // verus!
