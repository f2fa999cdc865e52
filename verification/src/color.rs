//! Terminal colour selection shared by the search and diff renderers.

use vstd::prelude::*;

verus! {

/// Color output mode for terminal display.
#[derive(Debug, Clone, Copy, PartialEq, Eq, Structural)]
pub enum ColorMode {
    /// Always use colors, even if output is not a terminal
    Always,
    /// Automatically detect if terminal supports colors
    Auto,
    /// Never use colors
    Never,
}

impl Default for ColorMode {
    fn default() -> (r: Self)
        ensures
            r == ColorMode::Auto,
    {
        ColorMode::Auto
    }
}

/// Relies on atty::is: reports whether standard output is a terminal.
/// The answer depends on the process environment, so nothing is promised of it.
#[verifier::external_body]
pub(crate) fn stdout_is_terminal() -> bool {
    atty::is(atty::Stream::Stdout)
}

impl ColorMode {
    /// Whether output rendered under this mode should carry colour codes.
    /// Under `Auto` the answer follows the environment.
    pub fn should_use_color(&self) -> (r: bool)
        ensures
            self == ColorMode::Always ==> r,
            self == ColorMode::Never ==> !r,
    {
        match self {
            ColorMode::Always => true,
            ColorMode::Never => false,
            ColorMode::Auto => stdout_is_terminal(),
        }
    }
}

} // verus!
