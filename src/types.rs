//! The session description handed to each render.
use vstd::prelude::*;

verus! {

/// One render's input: the working directory, the model, the workspace, the
/// session's cost and timing, and the use of the context window.
pub struct StatusInput {
    pub cwd: String,
    pub model: Model,
    pub workspace: Workspace,
    pub cost: Cost,
    pub context_window: ContextWindow,
}

pub struct Model {
    pub display_name: String,
}

pub struct Workspace {
    pub current_dir: String,
}

pub struct Cost {
    /// Thousandths of a US dollar.
    pub total_cost_usd: u64,
    pub total_duration_ms: u64,
    pub total_lines_added: u32,
    pub total_lines_removed: u32,
}

pub struct ContextWindow {
    pub context_window_size: u32,
    /// Hundredths of a percent.
    pub used_percentage: u32,
    /// Hundredths of a percent.
    pub remaining_percentage: u32,
    pub current_usage: Option<CurrentUsage>,
}

pub struct CurrentUsage {
    pub input_tokens: u32,
    pub output_tokens: u32,
    pub cache_creation_input_tokens: u32,
    pub cache_read_input_tokens: u32,
}

} // verus!
