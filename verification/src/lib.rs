//! Decisions of a context server, as verified functions.

pub mod agents;
pub mod briefing_laws;
pub mod commandcode;
pub mod commandcode_laws;
pub mod heredoc;
pub mod heredoc_laws;
pub mod intent;
pub mod json;
pub mod jsonc;
pub mod jsonc_laws;
pub mod paths;
pub mod ranges;
pub mod ranges_laws;
pub mod shell;
pub mod shell_laws;
pub mod task_briefing;
pub mod text;
pub mod text_laws;
pub mod time;
pub mod view_laws;
