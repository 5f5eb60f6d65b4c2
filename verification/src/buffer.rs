//! The buffer that the generated code is written to.
use vstd::prelude::*;

use crate::text::line;

verus! {

/// Generated code, line by line.
pub struct Buffer {
    /// The code written so far.
    pub buf: String,
}

impl View for Buffer {
    type V = Seq<char>;

    open spec fn view(&self) -> Seq<char> {
        self.buf@
    }
}

impl Buffer {
    /// An empty buffer.
    pub fn new() -> (r: Buffer)
        ensures
            r@ == Seq::<char>::empty(),
    {
        Buffer { buf: String::new() }
    }

    /// Appends `s` as a line.
    pub fn writeln(&mut self, s: &str)
        ensures
            final(self)@ == old(self)@ + line(s@),
    {
        self.buf.append(s);
        self.buf.append("\n");
        assert(self.buf@ =~= old(self)@ + line(s@));
    }
}

} // verus!
