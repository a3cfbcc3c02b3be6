//! The line source: a forward-only producer of text lines, consumed
//! exactly once, in order, and terminated by exhaustion.
//!
//! The rest of the pipeline is verified against this contract alone, so
//! any producer that honours it (a vector of lines, a reader feeding
//! lines in) can drive the pipeline.

use vstd::prelude::*;

verus! {

/// A sequential producer of text lines.
pub trait LineSource: Sized {
    /// The lines the source has not yet produced, in the order it will
    /// produce them.
    spec fn remaining(&self) -> Seq<Seq<char>>;

    /// A source never holds more lines than a `usize` can count; the
    /// line buffer caches every line it pulls, so line numbers stay
    /// within machine range.
    proof fn remaining_fits(&self)
        ensures
            self.remaining().len() <= usize::MAX,
    ;

    /// Produces the next line, or `None` exactly when the source is
    /// exhausted.
    fn next_line(&mut self) -> (r: Option<String>)
        ensures
            match r {
                Some(line) => {
                    &&& old(self).remaining().len() > 0
                    &&& line@ == old(self).remaining()[0]
                    &&& final(self).remaining() == old(self).remaining().skip(1)
                },
                None => {
                    &&& old(self).remaining().len() == 0
                    &&& final(self).remaining() == old(self).remaining()
                },
            },
    ;
}

/// A line source over an in-memory vector of lines.
pub struct VecSource {
    lines: Vec<String>,
    cursor: usize,
}

impl VecSource {
    pub fn new(lines: Vec<String>) -> (s: VecSource)
        ensures
            s.remaining() == lines@.map_values(|l: String| l@),
    {
        let s = VecSource { lines, cursor: 0 };
        assert(s.remaining() =~= s.lines@.map_values(|l: String| l@));
        s
    }
}

impl LineSource for VecSource {
    closed spec fn remaining(&self) -> Seq<Seq<char>> {
        if self.cursor <= self.lines@.len() {
            self.lines@.map_values(|l: String| l@).skip(self.cursor as int)
        } else {
            Seq::empty()
        }
    }

    proof fn remaining_fits(&self) {
        assert(vstd::std_specs::vec::spec_vec_len(&self.lines) == self.lines@.len());
    }

    fn next_line(&mut self) -> (r: Option<String>) {
        if self.cursor < self.lines.len() {
            let line = self.lines[self.cursor].clone();
            assert(line@ == old(self).remaining()[0]);
            self.cursor = self.cursor + 1;
            assert(self.remaining() =~= old(self).remaining().skip(1));
            Some(line)
        } else {
            None
        }
    }
}

} // verus!
