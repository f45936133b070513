//! The breadcrumb bar above the editor: its segments (the file, then the
//! symbols enclosing the cursor) and its dropdown and focus state.

use vstd::prelude::*;
use crate::lsp::types::SymbolKind;

verus! {

/// What a breadcrumb segment stands for.
#[derive(Debug, Clone, PartialEq, Eq)]
pub enum SegmentKind {
    File,
    Symbol(SymbolKind),
}

/// One segment of the breadcrumb bar.
#[derive(Debug, Clone, PartialEq, Eq)]
pub struct BreadcrumbSegment {
    pub label: String,
    pub kind: SegmentKind,
    pub line: Option<usize>,
    pub path: Option<String>,
}

/// The breadcrumb bar.
#[derive(Debug)]
pub struct BreadcrumbState {
    pub segments: Vec<BreadcrumbSegment>,
    pub open_dropdown: Option<usize>,
    pub dropdown_items: Vec<BreadcrumbSegment>,
    /// The cursor line the segments were computed for.
    pub last_cursor_line: usize,
    pub last_active_file: Option<String>,
    pub focused_segment: Option<usize>,
    pub dropdown_selected_idx: Option<usize>,
}

impl Default for BreadcrumbState {
    /// No segments, and a cursor line no cursor has, so that the first
    /// cursor position computes them.
    fn default() -> (r: Self)
        ensures
            r.segments@.len() == 0,
            r.open_dropdown is None,
            r.dropdown_items@.len() == 0,
            r.last_cursor_line == usize::MAX,
            r.last_active_file is None,
            r.focused_segment is None,
            r.dropdown_selected_idx is None,
    {
        BreadcrumbState {
            segments: Vec::new(),
            open_dropdown: None,
            dropdown_items: Vec::new(),
            last_cursor_line: usize::MAX,
            last_active_file: None,
            focused_segment: None,
            dropdown_selected_idx: None,
        }
    }
}

} // verus!
