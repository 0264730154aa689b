//! ANSI codes used to style rendered diagnostics.

use vstd::prelude::*;

verus! {

/// Reset styling.
pub const RESET: &'static str = "\x1b[0m";

/// Following text will be bold.
pub const BOLD: &'static str = "\x1b[1m";

/// Set colour of text to red.
pub const RED: &'static str = "\x1b[91m";

/// Set colour of text to yellow.
pub const YELLOW: &'static str = "\x1b[93m";

/// Set colour of text to cyan.
pub const CYAN: &'static str = "\x1b[96m";

/// Set colour of text to default.
pub const DEFAULT: &'static str = "\x1b[39m";

/// Set colour of text to green.
pub const GREEN: &'static str = "\x1b[92m";

/// Clear the previous line.
pub const ERASE_LINE_UP: &'static str = "\x1b[1A\x1b[1G\x1b[0K";

} // verus!
