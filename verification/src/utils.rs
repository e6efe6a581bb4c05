use vstd::prelude::*;

use crate::tree::SyntaxNode;

verus! {

/// A line/column pair as the editor protocol counts them.
#[derive(Debug, Clone, Copy, PartialEq, Eq, Structural)]
pub struct Position {
    pub line: u32,
    pub character: u32,
}

/// A half-open-ish span between two positions; see [`range_contains`] for
/// the exact membership rule.
#[derive(Debug, Clone, Copy, PartialEq, Eq, Structural)]
pub struct Range {
    pub start: Position,
    pub end: Position,
}

/// Converts a protocol position to a parser row/column point.
pub fn position_to_point(position: Position) -> (r: (usize, usize))
    ensures
        r.0 == position.line as usize,
        r.1 == position.character as usize,
{
    (position.line as usize, position.character as usize)
}

/// Converts a parser row/column point to a protocol position; rows or
/// columns beyond the protocol's 32-bit range are truncated.
pub fn point_to_position(point: (usize, usize)) -> (r: Position)
    ensures
        r.line == point.0 as u32,
        r.character == point.1 as u32,
{
    Position {
        line: #[verifier::truncate] (point.0 as u32),
        character: #[verifier::truncate] (point.1 as u32),
    }
}

/// The protocol range a syntax node covers.
pub fn node_to_range(node: &SyntaxNode) -> (r: Range)
    ensures
        r.start.line == node.start_row as u32,
        r.start.character == node.start_col as u32,
        r.end.line == node.end_row as u32,
        r.end.character == node.end_col as u32,
{
    Range {
        start: point_to_position((node.start_row, node.start_col)),
        end: point_to_position((node.end_row, node.end_col)),
    }
}

/// The source text a node covers.
pub fn node_content<'s>(node: &'s SyntaxNode) -> (r: &'s str)
    ensures
        r@ == node.text@,
{
    node.text.as_str()
}

/// Membership of a position in a range: strictly between the end lines,
/// or on the start line at or after the start column, or on the end line
/// at or before the end column.
pub open spec fn spec_range_contains(range: Range, position: Position) -> bool {
    (range.start.line < position.line && range.end.line > position.line) || (range.start.line
        == position.line && range.start.character <= position.character) || (range.end.line
        == position.line && range.end.character >= position.character)
}

/// Decides [`spec_range_contains`].
pub fn range_contains(range: Range, position: Position) -> (r: bool)
    ensures
        r == spec_range_contains(range, position),
{
    (range.start.line < position.line && range.end.line > position.line) || (range.start.line
        == position.line && range.start.character <= position.character) || (range.end.line
        == position.line && range.end.character >= position.character)
}

} // verus!
