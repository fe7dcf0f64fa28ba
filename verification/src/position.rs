//! A cursor position in a source text: a byte offset together with the
//! line and column it falls on.

use vstd::prelude::*;

verus! {

/// A position: the zero-based line and column, and the byte offset from
/// the start of the text.
pub struct Position {
    pub line: usize,
    pub column: usize,
    pub idx: usize,
}

impl Position {
    /// Advances past one byte within the current line.
    pub fn move_char(&mut self)
        requires
            old(self).idx < usize::MAX,
            old(self).column < usize::MAX,
        ensures
            final(self).idx == old(self).idx + 1,
            final(self).column == old(self).column + 1,
            final(self).line == old(self).line,
    {
        self.idx += 1;
        self.column += 1;
    }

    /// Advances past a line break: the next line starts at column zero.
    pub fn move_line(&mut self)
        requires
            old(self).idx < usize::MAX,
            old(self).line < usize::MAX,
        ensures
            final(self).idx == old(self).idx + 1,
            final(self).line == old(self).line + 1,
            final(self).column == 0,
    {
        self.idx += 1;
        self.line += 1;
        self.column = 0;
    }

    /// Advances past one byte, breaking the line on a newline byte.
    pub fn move_sym(&mut self, sym: u8)
        requires
            old(self).idx < usize::MAX,
            old(self).column < usize::MAX,
            old(self).line < usize::MAX,
        ensures
            final(self).idx == old(self).idx + 1,
            sym == 10 ==> final(self).line == old(self).line + 1 && final(self).column == 0,
            sym != 10 ==> final(self).line == old(self).line && final(self).column == old(
                self,
            ).column + 1,
    {
        if sym == 10 {
            self.move_line();
        } else {
            self.move_char();
        }
    }
}

impl Default for Position {
    /// The position of the first byte: line zero, column zero, offset
    /// zero.
    fn default() -> (r: Self)
        ensures
            r.line == 0 && r.column == 0 && r.idx == 0,
    {
        Position { line: 0, column: 0, idx: 0 }
    }
}

} // verus!
