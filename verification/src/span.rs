use vstd::prelude::*;

verus! {

/// Line and column extent of a token. Lines and columns count from one; the
/// last line and column are those of the character after the token.
#[derive(Debug, PartialEq, Eq, Clone, Copy, Structural)]
pub struct Span {
    pub first_line: usize,
    pub first_column: usize,
    pub last_line: usize,
    pub last_column: usize,
}

} // verus!
