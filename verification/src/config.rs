//! Settings the user can give in the configuration file.
use vstd::prelude::*;

verus! {

/// Colors the user may choose.
#[derive(Debug, Clone, Default)]
pub struct ThemeConfig {
    /// The brand color as `#RRGGBB`.
    pub brand_color: Option<String>,
}

/// Milliseconds between refreshes when the file does not say.
pub fn default_refresh_rate() -> (r: u64)
    ensures
        r == 1000,
{
    1000
}

} // verus!
