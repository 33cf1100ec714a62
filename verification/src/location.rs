//! Positions in the source text: a line number and a column, used as the
//! identity of expressions in the resolver's map and in diagnostics.
use vstd::prelude::*;

verus! {

/// A `(line, column)` pair, immutable once a token carries it.
#[derive(Debug, Clone, Copy, PartialEq, Eq, Hash, Structural)]
pub struct SourceLocation {
    pub line: usize,
    pub pos: usize,
}

impl SourceLocation {
    pub fn new(line: usize, pos: usize) -> (r: Self)
        ensures
            r.line == line,
            r.pos == pos,
    {
        Self { line, pos }
    }

    /// Moves the column right by `count`.
    pub fn advance_by(&mut self, count: usize)
        requires
            old(self).pos + count <= usize::MAX,
        ensures
            final(self).line == old(self).line,
            final(self).pos == old(self).pos + count,
    {
        self.pos = self.pos + count;
    }

    /// Starts the next line at column zero.
    pub fn newline(&mut self)
        requires
            old(self).line + 1 <= usize::MAX,
        ensures
            final(self).line == old(self).line + 1,
            final(self).pos == 0,
    {
        self.line = self.line + 1;
        self.pos = 0;
    }

    /// Adds a relative movement: lines add up, and the column restarts at the
    /// other's column if a line was crossed, else the columns add up.
    pub fn merge(&mut self, other: SourceLocation)
        requires
            old(self).line + other.line <= usize::MAX,
            old(self).pos + other.pos <= usize::MAX,
        ensures
            *final(self) == spec_merge(*old(self), other),
    {
        self.line = self.line + other.line;
        if other.line > 0 {
            self.pos = other.pos;
        } else {
            self.pos = self.pos + other.pos;
        }
    }
}

/// What `merge` produces.
pub open spec fn spec_merge(a: SourceLocation, b: SourceLocation) -> SourceLocation {
    SourceLocation {
        line: (a.line + b.line) as usize,
        pos: if b.line > 0 {
            b.pos
        } else {
            (a.pos + b.pos) as usize
        },
    }
}

} // verus!
