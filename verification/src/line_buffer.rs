//! The line buffer: wraps a forward-only line source, assigns each line
//! its 1-based number, memoizes every line ever pulled, and exposes a
//! movable cursor with a direction.

use vstd::prelude::*;
use crate::filtered::NumberedLine;
use crate::source::LineSource;

verus! {

/// Direction in which the cursor of a `LineBuffer` proceeds.
#[derive(Clone)]
pub enum IterDirection {
    BACKWARD,
    FORWARD,
}

/// The direction a `seek` leaves in force: the requested one, or the
/// current one when none is requested.
pub open spec fn seek_dir(cur: IterDirection, maybe_direction: Option<IterDirection>)
    -> IterDirection {
    match maybe_direction {
        Some(d) => d,
        None => cur,
    }
}

/// The cursor a `seek` leaves in force, positioned so that the next step
/// in direction `d` lands on the requested line.
pub open spec fn seek_cursor(cur: int, d: IterDirection, maybe_line_num: Option<usize>) -> int {
    match maybe_line_num {
        Some(n) => match d {
            IterDirection::BACKWARD => n + 1,
            IterDirection::FORWARD => if n > 0 {
                n - 1
            } else {
                0
            },
        },
        None => cur,
    }
}

/// Caching, randomly re-visitable view over a forward-only line source.
pub struct LineBuffer<S: LineSource> {
    lines: S,
    cached_lines: Vec<NumberedLine>,
    last_iter_line: usize,
    iter_direction: IterDirection,
}

impl<S: LineSource> LineBuffer<S> {
    /// The whole source, memoized lines first: this sequence never
    /// changes over the buffer's lifetime, however much is pulled.
    pub closed spec fn all_lines(&self) -> Seq<Seq<char>> {
        self.cached_lines@.map_values(|nl: NumberedLine| nl.1@) + self.lines.remaining()
    }

    /// How many lines have been pulled from the source and memoized.
    pub closed spec fn cached_count(&self) -> int {
        self.cached_lines@.len() as int
    }

    /// The line number the cursor last served (0 before any iteration).
    pub closed spec fn cursor(&self) -> int {
        self.last_iter_line as int
    }

    /// The direction the cursor proceeds in.
    pub closed spec fn dir(&self) -> IterDirection {
        self.iter_direction
    }

    pub closed spec fn wf(&self) -> bool {
        &&& self.all_lines().len() <= usize::MAX
        &&& forall|k: int|
            0 <= k < self.cached_lines@.len() ==> (#[trigger] self.cached_lines@[k]).0 as int == k
                + 1
    }

    /// Creates a new `LineBuffer` over a line source, with the cursor
    /// before line 1, proceeding forward.
    pub fn new(source: S) -> (lb: LineBuffer<S>)
        ensures
            lb.wf(),
            lb.all_lines() == source.remaining(),
            lb.cached_count() == 0,
            lb.cursor() == 0,
            lb.dir() matches IterDirection::FORWARD,
    {
        proof {
            source.remaining_fits();
        }
        let lb = LineBuffer {
            lines: source,
            cached_lines: Vec::new(),
            last_iter_line: 0,
            iter_direction: IterDirection::FORWARD,
        };
        assert(lb.all_lines() =~= source.remaining());
        lb
    }

    /// Gets a copy of the `line_num`th line (1-based) of the source,
    /// pulling and memoizing further lines if needed: `None` exactly for
    /// `line_num < 1` or past the end of the source.
    pub fn get(&mut self, line_num: usize) -> (r: Option<NumberedLine>)
        requires
            old(self).wf(),
        ensures
            final(self).wf(),
            final(self).all_lines() == old(self).all_lines(),
            final(self).cursor() == old(self).cursor(),
            final(self).dir() == old(self).dir(),
            line_num == 0 ==> final(self).cached_count() == old(self).cached_count(),
            line_num >= 1 ==> final(self).cached_count() == vstd::math::max(
                old(self).cached_count(),
                vstd::math::min(line_num as int, old(self).all_lines().len() as int),
            ),
            1 <= line_num <= old(self).all_lines().len() ==> (r matches Some(nl) && nl.0
                == line_num && nl.1@ == old(self).all_lines()[line_num - 1]),
            !(1 <= line_num <= old(self).all_lines().len()) ==> r is None,
    {
        if line_num < 1 {
            return None;
        }

        let ghost total = self.all_lines();
        let mut exhausted = false;
        while !exhausted && self.cached_lines.len() < line_num
            invariant
                self.wf(),
                self.all_lines() == total,
                self.cursor() == old(self).cursor(),
                self.dir() == old(self).dir(),
                old(self).cached_count() <= self.cached_count(),
                self.cached_count() <= total.len(),
                self.cached_count() <= vstd::math::max(
                    old(self).cached_count(),
                    vstd::math::min(line_num as int, total.len() as int),
                ),
                exhausted ==> self.cached_count() == total.len(),
            decreases line_num - self.cached_lines.len(), 1int - (if exhausted { 1int } else { 0int }),
        {
            let ghost pre = *self;
            match self.lines.next_line() {
                Some(line) => {
                    let n = self.cached_lines.len();
                    proof {
                        assert(pre.cached_lines@.map_values(|nl: NumberedLine| nl.1@).len()
                            == pre.cached_lines@.len());
                        assert(pre.lines.remaining().len() > 0);
                        assert(pre.cached_count() < total.len());
                    }
                    self.cached_lines.push((n + 1, line));
                    proof {
                        assert(self.cached_lines@.map_values(|nl: NumberedLine| nl.1@)
                            =~= pre.cached_lines@.map_values(|nl: NumberedLine| nl.1@).push(
                            line@,
                        ));
                        assert(self.all_lines() =~= pre.all_lines());
                    }
                },
                None => {
                    exhausted = true;
                    proof {
                        assert(self.all_lines() =~= self.cached_lines@.map_values(
                            |nl: NumberedLine| nl.1@,
                        ));
                        assert(self.cached_count() == total.len());
                    }
                },
            }
        }
        proof {
            assert(self.cached_lines@.map_values(|nl: NumberedLine| nl.1@).len()
                == self.cached_lines@.len());
        }

        if line_num <= self.cached_lines.len() {
            proof {
                assert(self.all_lines()[line_num - 1] == self.cached_lines@.map_values(
                    |nl: NumberedLine| nl.1@,
                )[line_num - 1]);
            }
            let nl = &self.cached_lines[line_num - 1];
            Some((nl.0, nl.1.clone()))
        } else {
            None
        }
    }

    /// Sets the position and direction of the cursor: the next `next`
    /// call starts from `maybe_line_num` (when given) and proceeds in
    /// `maybe_direction` (when given; otherwise the direction stands).
    pub fn seek(&mut self, maybe_line_num: Option<usize>, maybe_direction: Option<IterDirection>)
        requires
            old(self).wf(),
            match (maybe_line_num, seek_dir(old(self).dir(), maybe_direction)) {
                (Some(n), IterDirection::BACKWARD) => n < usize::MAX,
                _ => true,
            },
        ensures
            final(self).wf(),
            final(self).all_lines() == old(self).all_lines(),
            final(self).cached_count() == old(self).cached_count(),
            final(self).dir() == seek_dir(old(self).dir(), maybe_direction),
            final(self).cursor() == seek_cursor(
                old(self).cursor(),
                seek_dir(old(self).dir(), maybe_direction),
                maybe_line_num,
            ),
    {
        if let Some(direction) = maybe_direction {
            self.iter_direction = direction;
        }
        if let Some(line_num) = maybe_line_num {
            self.last_iter_line = match self.iter_direction {
                IterDirection::BACKWARD => line_num + 1,
                IterDirection::FORWARD => if line_num > 0 {
                    line_num - 1
                } else {
                    0
                },
            };
        }
    }

    /// Advances the cursor one step in the current direction and returns
    /// the line now pointed to: `None` when moving backward past line 1
    /// or forward past the end of the source.
    pub fn next(&mut self) -> (r: Option<NumberedLine>)
        requires
            old(self).wf(),
        ensures
            final(self).wf(),
            final(self).all_lines() == old(self).all_lines(),
            final(self).dir() == old(self).dir(),
            old(self).cached_count() <= final(self).cached_count(),
            (old(self).dir() matches IterDirection::FORWARD) ==> {
                let t = old(self).cursor() + 1;
                &&& t <= old(self).all_lines().len() ==> {
                    &&& r matches Some(nl) && nl.0 as int == t && nl.1@ == old(
                        self,
                    ).all_lines()[t - 1]
                    &&& final(self).cursor() == t
                    &&& final(self).cached_count() == vstd::math::max(
                        old(self).cached_count(),
                        t,
                    )
                }
                &&& t > old(self).all_lines().len() ==> {
                    &&& r is None
                    &&& final(self).cursor() == old(self).cursor()
                }
            },
            (old(self).dir() matches IterDirection::BACKWARD) ==> {
                let t = old(self).cursor() - 1;
                &&& old(self).cursor() <= 1 ==> {
                    &&& r is None
                    &&& final(self).cursor() == old(self).cursor()
                    &&& final(self).cached_count() == old(self).cached_count()
                }
                &&& old(self).cursor() > 1 && t <= old(self).all_lines().len() ==> {
                    &&& r matches Some(nl) && nl.0 as int == t && nl.1@ == old(
                        self,
                    ).all_lines()[t - 1]
                    &&& final(self).cursor() == t
                }
                &&& old(self).cursor() > 1 && t > old(self).all_lines().len() ==> {
                    &&& r is None
                    &&& final(self).cursor() == old(self).cursor()
                }
            },
    {
        let maybe_next_line: Option<usize> = match self.iter_direction {
            IterDirection::FORWARD => {
                if self.last_iter_line == usize::MAX {
                    None
                } else {
                    Some(self.last_iter_line + 1)
                }
            },
            IterDirection::BACKWARD => {
                if self.last_iter_line > 1 {
                    Some(self.last_iter_line - 1)
                } else {
                    None
                }
            },
        };

        match maybe_next_line {
            Some(next_line) => {
                match self.get(next_line) {
                    Some(line) => {
                        self.last_iter_line = next_line;
                        Some(line)
                    },
                    None => None,
                }
            },
            None => None,
        }
    }
}

} // verus!
