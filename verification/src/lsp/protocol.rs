//! The language-server protocol values that the editor reads.
use vstd::prelude::*;

verus! {

/// A zero-based line and UTF-16 character offset.
#[derive(Debug, Clone, Copy, PartialEq, Eq, Structural)]
pub struct Position {
    pub line: u32,
    pub character: u32,
}

/// A span between two positions.
#[derive(Debug, Clone, Copy, PartialEq, Eq, Structural)]
pub struct Range {
    pub start: Position,
    pub end: Position,
}

/// A problem that the server reports for a span of the file.
#[derive(Debug, Clone)]
pub struct Diagnostic {
    pub range: Range,
    pub severity: Option<u32>,
    pub message: String,
}

/// A completion that the server offers.
#[derive(Debug, Clone)]
pub struct CompletionItem {
    pub label: String,
    pub kind: Option<u32>,
    pub insert_text: Option<String>,
}

/// The contents of a hover reply, as far as the editor reads them: a plain
/// string, a list of contents, an object (of which only a string `value`
/// member is read), or anything else.
#[derive(Debug)]
pub enum HoverContent {
    Text(String),
    List(Vec<HoverContent>),
    Object(Option<String>),
    Other,
}

/// A hover reply.
#[derive(Debug)]
pub struct Hover {
    pub contents: HoverContent,
}

/// A highlighted token on a line: start and length in UTF-16 units.
#[derive(Debug, Clone)]
pub struct SemanticToken {
    pub start: usize,
    pub length: usize,
    pub token_type: String,
    pub modifiers: u32,
}

} // verus!
