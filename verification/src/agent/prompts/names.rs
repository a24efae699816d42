//! Names of the prompts the framework itself sends.
//!
//! Applications may register any other name they like; these are the ones with
//! built-in defaults, and replacing one changes framework behaviour.
use vstd::prelude::*;

verus! {

/// First compression of a conversation. Variables: `conversation`.
pub const SUMMARIZE_FRESH: &'static str = "context.summarize.fresh";

/// Extending an existing summary. Variables: `summary`, `conversation`.
pub const SUMMARIZE_EXTEND: &'static str = "context.summarize.extend";

/// Hint shown to a model that appears to be looping. No variables.
pub const STUCK_HINT: &'static str = "loop.stuck_hint";

/// Wrap-up instruction when the step budget is spent. No variables.
pub const WRAP_UP: &'static str = "loop.wrap_up";

} // verus!
