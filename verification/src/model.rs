//! The recorded file changes, as plain values.

use vstd::prelude::*;

verus! {

/// Where a change was recorded: the session log, the line in it, and the
/// position among the changes on that line. Session logs are append-only, so
/// a source names one change for good.
#[derive(Debug, Clone)]
pub struct ChangeSource {
    pub session_file: String,
    pub line_index: usize,
    pub index_in_line: usize,
}

impl View for ChangeSource {
    type V = (Seq<char>, usize, usize);

    open spec fn view(&self) -> (Seq<char>, usize, usize) {
        (self.session_file@, self.line_index, self.index_in_line)
    }
}

impl ChangeSource {
    /// A copy of this source with the same view.
    pub fn duplicate(&self) -> (res: ChangeSource)
        ensures
            res@ == self@,
    {
        ChangeSource {
            session_file: self.session_file.clone(),
            line_index: self.line_index,
            index_in_line: self.index_in_line,
        }
    }

    /// Whether both name the same change.
    pub fn same_as(&self, other: &ChangeSource) -> (res: bool)
        ensures
            res == (self@ == other@),
    {
        self.session_file == other.session_file && self.line_index == other.line_index
            && self.index_in_line == other.index_in_line
    }
}

impl PartialEq for ChangeSource {
    fn eq(&self, other: &Self) -> (res: bool) {
        self.same_as(other)
    }
}

impl vstd::std_specs::cmp::PartialEqSpecImpl for ChangeSource {
    open spec fn obeys_eq_spec() -> bool {
        true
    }

    open spec fn eq_spec(&self, other: &Self) -> bool {
        self@ == other@
    }
}

impl Default for ChangeSource {
    fn default() -> (res: ChangeSource)
        ensures
            res@ == (Seq::<char>::empty(), 0usize, 0usize),
    {
        ChangeSource { session_file: String::new(), line_index: 0, index_in_line: 0 }
    }
}

/// The tool that made a change.
#[derive(Debug, Clone, Copy, PartialEq, Eq, Structural)]
pub enum ChangeTool {
    Edit,
    Write,
}

/// What a change did, bounded as recorded in the session log.
#[derive(Debug, Clone)]
pub enum ChangeDetail {
    /// A replacement of `old` by `new`.
    Edit { old: String, new: String },
    /// A whole-file write; `head` is its leading part.
    Write { head: String },
    /// Nothing recorded.
    Nothing,
}

/// One recorded change to one file.
#[derive(Debug, Clone)]
pub struct ChangeEvent {
    pub timestamp_ms: i64,
    pub tool: ChangeTool,
    pub file_path: String,
    pub summary: String,
    pub detail: ChangeDetail,
    pub source: ChangeSource,
}

/// How a diff line or cell differs.
#[derive(Debug, Clone, Copy, PartialEq, Eq, Structural)]
pub enum DiffMarker {
    Added,
    Removed,
}

/// The kind of a side-by-side cell.
#[derive(Debug, Clone, Copy, PartialEq, Eq, Structural)]
pub enum CellKind {
    Added,
    Removed,
    Context,
}

/// The syntax class of a code token.
#[derive(Debug, Clone, Copy, PartialEq, Eq, Structural)]
pub enum TokenKind {
    Keyword,
    Str,
    Comment,
    Number,
    Default,
}

/// A piece of code with its syntax class.
#[derive(Debug, Clone)]
pub struct Token {
    pub text: String,
    pub kind: TokenKind,
}

/// One line of a block diff: gutter (line number or blanks), marker, code.
#[derive(Debug, Clone)]
pub struct DiffLine {
    pub gutter: String,
    pub marker: DiffMarker,
    pub code: Vec<Token>,
}

/// One cell of a side-by-side diff.
#[derive(Debug, Clone)]
pub struct DiffCell {
    pub gutter: String,
    pub kind: CellKind,
    pub code: Vec<Token>,
}

/// One row of a side-by-side diff: old on the left, new on the right.
#[derive(Debug, Clone)]
pub struct SideRow {
    pub left: Option<DiffCell>,
    pub right: Option<DiffCell>,
}

} // verus!
