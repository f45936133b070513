//! Blue IDE core library: the editor's data model, text utilities, diff
//! grouping, fuzzy matching, LSP framing and wire-shape normalisation, pane
//! layout, and the small pieces of logic behind each panel.

pub mod text;
pub mod editor;
pub mod path;
pub mod language;
pub mod pane_content;
pub mod perf;
pub mod git;
pub mod launcher;
pub mod lsp;
pub mod problems_panel;
pub mod panes;
pub mod project_template;
pub mod profiler;
pub mod outline;
pub mod plugins;
pub mod markdown_preview;
