//! The window: paginates the classified stream with a fixed viewport,
//! supporting line- and page-granularity navigation in both directions
//! over an append-only cache of everything the classifier has produced.

use vstd::prelude::*;
use crate::classify::{active_pred, classified_stream};
use crate::context_buffer::{opt_pred_view, ContextBuffer};
use crate::filtered::{FilterPredicate, FilteredLine, LineView, PredView};
use crate::line_buffer::LineBuffer;
use crate::source::LineSource;

verus! {

/// Filters, describes, and categorizes lines from a line source
/// according to an optional filtering criterion, a viewport at a time.
pub struct WindowBuffer<S: LineSource> {
    /// Line source and filtering apparatus.
    context_buffer: Option<ContextBuffer<S>>,
    /// Cache of lines that have been read off of `context_buffer`.
    buffered_lines: Vec<FilteredLine>,
    /// Criteria on which lines are filtered by `context_buffer`.
    predicate: Option<FilterPredicate>,
    /// Width of window in columns.
    width: usize,
    /// Height of window in lines.
    height: usize,
    /// 1-indexed offset of line at top of window.
    start_line: usize,
    /// 1-indexed offset of line at bottom of window.
    end_line: usize,
}

impl<S: LineSource> WindowBuffer<S> {
    /// The whole line source under the window.
    pub closed spec fn lines(&self) -> Seq<Seq<char>> {
        self.context_buffer->Some_0.lines()
    }

    /// The predicate in force, normalized.
    pub closed spec fn pred_view(&self) -> Option<PredView> {
        self.context_buffer->Some_0.pred_view()
    }

    /// The whole classified stream the window pages over.
    pub open spec fn stream(&self) -> Seq<LineView> {
        classified_stream(self.lines(), self.pred_view())
    }

    /// The classified lines cached so far: always a prefix of the stream.
    pub closed spec fn cache(&self) -> Seq<LineView> {
        self.buffered_lines@.map_values(|fl: FilteredLine| fl@)
    }

    /// How many classified lines have been cached so far.
    pub closed spec fn cache_len(&self) -> int {
        self.buffered_lines@.len() as int
    }

    /// 1-based return index of the line at the top of the viewport.
    pub closed spec fn viewport_start(&self) -> int {
        self.start_line as int
    }

    /// 1-based return index of the line at the bottom of the viewport.
    pub closed spec fn viewport_end(&self) -> int {
        self.end_line as int
    }

    /// Height of the viewport, in lines.
    pub closed spec fn window_height(&self) -> int {
        self.height as int
    }

    /// Width of the viewport, in columns.
    pub closed spec fn window_width(&self) -> int {
        self.width as int
    }

    pub closed spec fn wf(&self) -> bool {
        &&& self.context_buffer matches Some(cb) && (cb.wf() && cb.emitted()
            == self.buffered_lines@.len() && cb.lines() == self.lines() && cb.pred_view()
            == self.pred_view())
        &&& self.cache() == self.stream().take(self.cache_len())
        &&& self.cache_len() <= self.stream().len()
        &&& self.end_line <= self.buffered_lines@.len()
    }

    /// Creates a new `WindowBuffer` over a line source.
    ///
    /// The context-radius bound is what the machine forces: the window
    /// of `2 * context_lines + 1` slots must be addressable.
    pub fn new(iter: S, predicate: Option<FilterPredicate>, width: usize, height: usize) -> (wb:
        WindowBuffer<S>)
        requires
            (predicate matches Some(fp) && fp.filter_string@.len() > 0)
                ==> predicate->Some_0.context_lines <= (usize::MAX - 1) / 2,
        ensures
            wb.wf(),
            wb.lines() == iter.remaining(),
            wb.pred_view() == active_pred(opt_pred_view(predicate)),
            wb.cache_len() == 0,
            wb.viewport_start() == 0,
            wb.viewport_end() == 0,
            wb.window_height() == height,
            wb.window_width() == width,
    {
        let pred_clone: Option<FilterPredicate> = match &predicate {
            Some(fp) => Some(fp.clone()),
            None => None,
        };
        let line_buffer = LineBuffer::new(iter);
        let context_buffer = Some(ContextBuffer::new(pred_clone, line_buffer));

        let wb = WindowBuffer {
            context_buffer,
            buffered_lines: Vec::new(),
            predicate,
            width,
            height,
            start_line: 0,
            end_line: 0,
        };
        proof {
            assert(wb.cache() =~= wb.stream().take(0));
        }
        wb
    }

    /// Sets the filter predicate: discards the cache, rewinds the line
    /// buffer to line 1 (keeping its memo), and rebuilds classification
    /// from the top of the source. The viewport is reset, so the next
    /// `next_line` yields the first line of the new stream.
    pub fn set_predicate(&mut self, predicate: Option<FilterPredicate>)
        requires
            old(self).wf(),
            (predicate matches Some(fp) && fp.filter_string@.len() > 0)
                ==> predicate->Some_0.context_lines <= (usize::MAX - 1) / 2,
        ensures
            final(self).wf(),
            final(self).lines() == old(self).lines(),
            final(self).pred_view() == active_pred(opt_pred_view(predicate)),
            final(self).cache_len() == 0,
            final(self).viewport_end() == 0,
            final(self).window_height() == old(self).window_height(),
            final(self).window_width() == old(self).window_width(),
    {
        let pred_clone: Option<FilterPredicate> = match &predicate {
            Some(fp) => Some(fp.clone()),
            None => None,
        };
        let context_buffer = self.context_buffer.take().unwrap();
        let mut line_buffer = context_buffer.into_line_buffer();
        line_buffer.seek(Some(1), None);
        self.context_buffer = Some(ContextBuffer::new(pred_clone, line_buffer));
        self.predicate = predicate;
        self.buffered_lines.clear();
        self.end_line = 0;
        proof {
            assert(self.cache() =~= self.stream().take(0));
        }
    }

    /// Gets the next line after the line currently displayed at the
    /// bottom of the window, or `None` at the end of the stream.
    pub fn next_line(&mut self) -> (line: Option<FilteredLine>)
        requires
            old(self).wf(),
            old(self).cache_len() < usize::MAX,
        ensures
            final(self).wf(),
            final(self).lines() == old(self).lines(),
            final(self).pred_view() == old(self).pred_view(),
            final(self).window_height() == old(self).window_height(),
            final(self).window_width() == old(self).window_width(),
            ({
                let e = old(self).viewport_end();
                let total = old(self).stream().len() as int;
                &&& e < total ==> {
                    &&& line matches Some(fl) && fl@ == old(self).stream()[e]
                    &&& final(self).viewport_end() == e + 1
                    &&& final(self).viewport_start() == e + 1
                }
                &&& e >= total ==> {
                    &&& line is None
                    &&& final(self).viewport_end() == e
                    &&& final(self).viewport_start() == e + 1
                }
            }),
    {
        let next_line_num = self.end_line + 1;

        let mut lines = self.get_lines(next_line_num, 1);
        proof {
            assert(lines@.len() == lines@.map_values(|fl: FilteredLine| fl@).len());
        }
        if lines.len() > 0 {
            self.end_line = next_line_num;
            proof {
                assert(lines@[0]@ == lines@.map_values(|fl: FilteredLine| fl@)[0]);
            }
            Some(lines.remove(0))
        } else {
            None
        }
    }

    /// Gets the line before the line at the top of the window: a no-op
    /// returning `None` when the viewport is already at the beginning.
    pub fn prev_line(&mut self) -> (line: Option<FilteredLine>)
        requires
            old(self).wf(),
        ensures
            final(self).wf(),
            final(self).lines() == old(self).lines(),
            final(self).pred_view() == old(self).pred_view(),
            final(self).window_height() == old(self).window_height(),
            final(self).window_width() == old(self).window_width(),
            ({
                let e = old(self).viewport_end();
                let h = old(self).window_height();
                &&& e <= h ==> {
                    &&& line is None
                    &&& final(self).viewport_end() == e
                    &&& final(self).viewport_start() == old(self).viewport_start()
                    &&& final(self).cache_len() == old(self).cache_len()
                }
                &&& e > h ==> {
                    &&& line matches Some(fl) && fl@ == old(self).stream()[e - h - 1]
                    &&& final(self).viewport_end() == e - 1
                    &&& final(self).viewport_start() == e - h
                    &&& final(self).cache_len() == old(self).cache_len()
                }
            }),
    {
        if self.end_line <= self.height {
            return None;
        }

        let next_line_num = self.end_line - self.height;
        let new_end_line = self.end_line - 1;

        let mut lines = self.get_lines(next_line_num, 1);
        proof {
            assert(lines@.len() == lines@.map_values(|fl: FilteredLine| fl@).len());
        }
        if lines.len() > 0 {
            self.end_line = new_end_line;
            proof {
                assert(lines@[0]@ == lines@.map_values(|fl: FilteredLine| fl@)[0]);
            }
            Some(lines.remove(0))
        } else {
            None
        }
    }

    /// Gets a page full of lines beginning after the line currently
    /// displayed at the bottom of the window; shorter at the end of the
    /// stream.
    pub fn next_page(&mut self) -> (lines: Vec<FilteredLine>)
        requires
            old(self).wf(),
            old(self).viewport_end() + 1 + old(self).window_height() <= usize::MAX,
        ensures
            final(self).wf(),
            final(self).lines() == old(self).lines(),
            final(self).pred_view() == old(self).pred_view(),
            final(self).window_height() == old(self).window_height(),
            final(self).window_width() == old(self).window_width(),
            ({
                let e = old(self).viewport_end();
                let h = old(self).window_height();
                let endv = vstd::math::min(e + h, old(self).stream().len() as int);
                &&& lines@.map_values(|fl: FilteredLine| fl@) == old(self).stream().subrange(
                    e,
                    endv,
                )
                &&& final(self).viewport_start() == e + 1
                &&& final(self).viewport_end() == endv
            }),
    {
        let start_line = self.end_line + 1;
        let num_lines = self.height;
        let lines = self.get_lines(start_line, num_lines);

        lines
    }

    /// Gets a page full of lines ending before the line currently
    /// displayed at the top of the window, clamped to the beginning of
    /// the stream.
    pub fn prev_page(&mut self) -> (lines: Vec<FilteredLine>)
        requires
            old(self).wf(),
        ensures
            final(self).wf(),
            final(self).lines() == old(self).lines(),
            final(self).pred_view() == old(self).pred_view(),
            final(self).window_height() == old(self).window_height(),
            final(self).window_width() == old(self).window_width(),
            ({
                let h = old(self).window_height();
                let st: int = if old(self).viewport_start() > h {
                    old(self).viewport_start() - h
                } else {
                    1
                };
                let endv = vstd::math::min(st - 1 + h, old(self).stream().len() as int);
                &&& final(self).viewport_start() == st
                &&& final(self).viewport_end() == endv
                &&& lines@.map_values(|fl: FilteredLine| fl@) == (if st - 1 <= endv {
                    old(self).stream().subrange(st - 1, endv)
                } else {
                    Seq::<LineView>::empty()
                })
            }),
    {
        let start_line = if self.start_line > self.height {
            self.start_line - self.height
        } else {
            1
        };

        let num_lines = self.height;
        let lines = self.get_lines(start_line, num_lines);

        lines
    }

    /// Gets `num_lines` lines of the classified stream beginning at
    /// return index `start` (1-based), pulling from the classifier as
    /// needed; the result is shorter when the stream ends first, and the
    /// viewport is set around what was requested. `start < 1` is a
    /// contract violation.
    pub fn get_lines(&mut self, start: usize, num_lines: usize) -> (lines: Vec<FilteredLine>)
        requires
            old(self).wf(),
            start >= 1,
            start - 1 + num_lines <= usize::MAX,
        ensures
            final(self).wf(),
            final(self).lines() == old(self).lines(),
            final(self).pred_view() == old(self).pred_view(),
            final(self).window_height() == old(self).window_height(),
            final(self).window_width() == old(self).window_width(),
            ({
                let desired = start - 1 + num_lines;
                let total = old(self).stream().len() as int;
                let endv = vstd::math::min(desired as int, total);
                &&& final(self).cache_len() == vstd::math::max(old(self).cache_len(), endv)
                &&& final(self).viewport_start() == start
                &&& final(self).viewport_end() == endv
                &&& lines@.map_values(|fl: FilteredLine| fl@) == (if start - 1 <= endv {
                    old(self).stream().subrange(start - 1, endv)
                } else {
                    Seq::<LineView>::empty()
                })
            }),
    {
        let start_idx = start - 1;
        let end_desired = start_idx + num_lines;
        self.fill_buffer(end_desired);

        let end = if end_desired <= self.buffered_lines.len() {
            end_desired
        } else {
            self.buffered_lines.len()
        };

        self.start_line = start_idx + 1;
        self.end_line = end;

        if start_idx <= end {
            let ghost total_stream = self.stream();
            let mut out: Vec<FilteredLine> = Vec::new();
            let mut i = start_idx;
            while i < end
                invariant
                    start_idx <= i <= end,
                    end <= self.buffered_lines@.len(),
                    self.cache() == total_stream.take(self.cache_len()),
                    self.cache_len() == self.buffered_lines@.len(),
                    self.cache_len() <= total_stream.len(),
                    out@.map_values(|fl: FilteredLine| fl@) == total_stream.subrange(
                        start_idx as int,
                        i as int,
                    ),
                decreases end - i,
            {
                let ghost prev = out@.map_values(|fl: FilteredLine| fl@);
                out.push(self.buffered_lines[i].clone());
                proof {
                    assert(out@.map_values(|fl: FilteredLine| fl@) =~= prev.push(
                        self.buffered_lines@[i as int]@,
                    ));
                    assert(self.buffered_lines@[i as int]@ == self.cache()[i as int]);
                    assert(out@.map_values(|fl: FilteredLine| fl@) =~= total_stream.subrange(
                        start_idx as int,
                        i + 1,
                    ));
                }
                i = i + 1;
            }
            out
        } else {
            let out: Vec<FilteredLine> = Vec::new();
            proof {
                assert(out@.map_values(|fl: FilteredLine| fl@) =~= Seq::<LineView>::empty());
            }
            out
        }
    }

    /// Pulls classified lines from the classifier until the cache holds
    /// `limit` lines or the stream is exhausted.
    fn fill_buffer(&mut self, limit: usize)
        requires
            old(self).wf(),
        ensures
            final(self).wf(),
            final(self).lines() == old(self).lines(),
            final(self).pred_view() == old(self).pred_view(),
            final(self).window_height() == old(self).window_height(),
            final(self).window_width() == old(self).window_width(),
            final(self).viewport_start() == old(self).viewport_start(),
            final(self).viewport_end() == old(self).viewport_end(),
            final(self).cache_len() == vstd::math::max(
                old(self).cache_len(),
                vstd::math::min(limit as int, old(self).stream().len() as int),
            ),
    {
        let ghost total_stream = self.stream();
        let mut cb = self.context_buffer.take().unwrap();
        let mut done = false;
        while !done && self.buffered_lines.len() < limit
            invariant
                cb.wf(),
                cb.lines() == old(self).lines(),
                cb.pred_view() == old(self).pred_view(),
                cb.stream() == total_stream,
                cb.emitted() == self.buffered_lines@.len(),
                self.buffered_lines@.map_values(|fl: FilteredLine| fl@) == total_stream.take(
                    self.buffered_lines@.len() as int,
                ),
                old(self).cache_len() <= self.buffered_lines@.len(),
                self.buffered_lines@.len() <= vstd::math::max(
                    old(self).cache_len(),
                    vstd::math::min(limit as int, total_stream.len() as int),
                ),
                done ==> self.buffered_lines@.len() == total_stream.len(),
                self.start_line == old(self).start_line,
                self.end_line == old(self).end_line,
                self.width == old(self).width,
                self.height == old(self).height,
                self.predicate == old(self).predicate,
            decreases limit - self.buffered_lines@.len(), (if done {
                0int
            } else {
                1int
            }),
        {
            proof {
                cb.lemma_emitted_bounds();
            }
            let ghost prev = self.buffered_lines@.map_values(|fl: FilteredLine| fl@);
            match cb.next() {
                Some(filtered_line) => {
                    let ghost flg = filtered_line;
                    self.buffered_lines.push(filtered_line);
                    proof {
                        assert(self.buffered_lines@.map_values(|fl: FilteredLine| fl@)
                            =~= prev.push(flg@));
                        assert(self.buffered_lines@.map_values(|fl: FilteredLine| fl@)
                            =~= total_stream.take(self.buffered_lines@.len() as int));
                    }
                },
                None => {
                    done = true;
                },
            }
        }
        self.context_buffer = Some(cb);
        proof {
            assert(self.lines() == old(self).lines());
            assert(self.cache() == self.stream().take(self.cache_len()));
        }
    }
}

} // verus!
