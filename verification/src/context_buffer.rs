//! The context classifier: turns the raw numbered-line stream of a
//! `LineBuffer` into the classified stream of `Match` / `Context` /
//! `Gap` / `Unfiltered` lines that `classify` describes.
//!
//! A sliding window of `2 * context_lines + 1` slots keeps the current
//! line in the middle, with `context_lines` classified lines of
//! look-behind and look-ahead; a tri-state gap flag ensures exactly one
//! `Gap` between two separated context groups.

use vstd::prelude::*;
use crate::classify::{
    active_pred, classified_stream, emit_at, filtered_stream, gap_before, is_match_at, kept,
    line_view_at, stream_upto, unfiltered_stream,
};
use crate::filtered::{ContextLine, FilterPredicate, FilteredLine, Gap, LineView, PredView};
use crate::line_buffer::{IterDirection, LineBuffer};
use crate::source::LineSource;
use crate::substring::contains_seq;

verus! {

/// The mathematical content of an optional predicate.
pub open spec fn opt_pred_view(pred: Option<FilterPredicate>) -> Option<PredView> {
    match pred {
        Some(fp) => Some(fp@),
        None => None,
    }
}

/// What the window slot standing for source position `p` must hold: the
/// classified line for a position inside the source, nothing for a
/// position before line 1 or past the end.
spec fn slot_for(lines: Seq<Seq<char>>, filter: Seq<char>, p: int, slot: Option<ContextLine>)
    -> bool {
    if 1 <= p <= lines.len() {
        slot matches Some(cl) && (cl.line_num() == p && cl.content() == lines[p - 1]
            && cl.is_match() == contains_seq(lines[p - 1], filter))
    } else {
        slot is None
    }
}

/// Whether window slot `j` holds a match line.
spec fn match_slot(buf: Seq<Option<ContextLine>>, j: int) -> bool {
    buf[j] matches Some(cl) && cl.is_match()
}

/// A window whose slots all hold what `slot_for` asks has a match slot
/// exactly when the position at its centre is kept.
proof fn lemma_window_match_kept(
    lines: Seq<Seq<char>>,
    filter: Seq<char>,
    radius: nat,
    pos: int,
    buf: Seq<Option<ContextLine>>,
)
    requires
        buf.len() == 2 * radius + 1,
        forall|j: int| 0 <= j < buf.len() ==> slot_for(lines, filter, pos - radius + j, #[trigger] buf[j]),
    ensures
        (exists|j: int| 0 <= j < buf.len() && #[trigger] match_slot(buf, j)) <==> kept(
            lines,
            filter,
            radius,
            pos,
        ),
{
    if exists|j: int| 0 <= j < buf.len() && #[trigger] match_slot(buf, j) {
        let j = choose|j: int| 0 <= j < buf.len() && #[trigger] match_slot(buf, j);
        let p = pos - radius + j;
        assert(slot_for(lines, filter, p, buf[j]));
        assert(1 <= p <= lines.len());
        assert(is_match_at(lines, filter, p));
        assert(kept(lines, filter, radius, pos));
    }
    if kept(lines, filter, radius, pos) {
        let p = choose|p: int|
            #[trigger] is_match_at(lines, filter, p) && pos - radius <= p <= pos + radius;
        let j = p - pos + radius;
        assert(slot_for(lines, filter, p, buf[j]));
        assert(match_slot(buf, j));
    }
}

/// Consumes a `LineBuffer`, classifying its lines against an optional
/// filter predicate into a lazy stream of `FilteredLine`s.
pub struct ContextBuffer<S: LineSource> {
    /// Criteria on which lines are classified; `None` for pass-through.
    filter_predicate: Option<FilterPredicate>,
    /// The sliding window: earlier lines in lower indexes.
    buffer: Vec<Option<ContextLine>>,
    /// The underlying numbered line source.
    iter: LineBuffer<S>,
    /// Tri-state flag driving emission of gap markers.
    gap: Gap,
    /// Source position of the window's centre line.
    pos: Ghost<int>,
    /// How many classified lines have been emitted so far.
    emitted: Ghost<int>,
}

impl<S: LineSource> ContextBuffer<S> {
    /// The whole line source under classification.
    pub closed spec fn lines(&self) -> Seq<Seq<char>> {
        self.iter.all_lines()
    }

    /// The predicate in force (already normalized: never empty).
    pub closed spec fn pred_view(&self) -> Option<PredView> {
        opt_pred_view(self.filter_predicate)
    }

    /// The whole classified stream this buffer steps through.
    pub open spec fn stream(&self) -> Seq<LineView> {
        classified_stream(self.lines(), self.pred_view())
    }

    /// How many items of the stream have been emitted so far.
    pub closed spec fn emitted(&self) -> int {
        self.emitted@
    }

    /// The window slots stand for positions centred at `pos`, and the
    /// buffer's cursor stands just past the window's look-ahead.
    spec fn windowed(&self, filter: Seq<char>, radius: nat) -> bool {
        let l = self.lines();
        let n = l.len() as int;
        let p = self.pos@;
        &&& self.buffer@.len() == 2 * radius + 1
        &&& 0 <= p <= n + radius + 1
        &&& self.iter.cursor() == vstd::math::min(p + radius, n)
        &&& forall|j: int|
            0 <= j < self.buffer@.len() ==> slot_for(l, filter, p - radius + j, #[trigger] self.buffer@[j])
    }

    spec fn wf_filtered(&self, filter: Seq<char>, radius: nat) -> bool {
        let l = self.lines();
        let n = l.len() as int;
        let p = self.pos@;
        &&& 2 * radius + 1 <= usize::MAX
        &&& if self.buffer@.len() == 0 {
            &&& self.gap matches Gap::Idle
            &&& self.iter.cursor() == n
            &&& self.emitted@ == filtered_stream(l, filter, radius).len()
        } else {
            &&& self.windowed(filter, radius)
            &&& match self.gap {
                Gap::Idle => self.emitted@ == stream_upto(l, filter, radius, p).len() && (p == 0
                    || kept(l, filter, radius, p)),
                Gap::Previous => {
                    &&& 1 <= p <= n
                    &&& kept(l, filter, radius, p)
                    &&& gap_before(l, filter, radius, p)
                    &&& self.emitted@ == stream_upto(l, filter, radius, p - 1).len() + 1
                },
                Gap::Current => false,
            }
        }
    }

    spec fn wf_unfiltered(&self) -> bool {
        let l = self.lines();
        let n = l.len() as int;
        let p = self.pos@;
        &&& self.gap matches Gap::Idle
        &&& if self.buffer@.len() == 0 {
            &&& (p == 0 || p == n + 1)
            &&& self.emitted@ == vstd::math::min(p, n)
            &&& self.iter.cursor() == vstd::math::min(p, n)
        } else {
            &&& self.buffer@.len() == 1
            &&& 1 <= p <= n
            &&& self.emitted@ == p
            &&& self.iter.cursor() == p
            &&& self.buffer@[0] matches Some(cl) && (!cl.is_match() && cl.line_num() == p
                && cl.content() == l[p - 1])
        }
    }

    pub closed spec fn wf(&self) -> bool {
        &&& self.iter.wf()
        &&& self.iter.dir() matches IterDirection::FORWARD
        &&& match self.filter_predicate {
            Some(fp) => fp.filter_string@.len() > 0 && self.wf_filtered(
                fp.filter_string@,
                fp.context_lines as nat,
            ),
            None => self.wf_unfiltered(),
        }
    }

    /// The emission count never runs past the stream.
    pub proof fn lemma_emitted_bounds(&self)
        requires
            self.wf(),
        ensures
            0 <= self.emitted() <= self.stream().len(),
    {
        match self.filter_predicate {
            Some(fp) => {
                let l = self.lines();
                let f = fp.filter_string@;
                let r = fp.context_lines as nat;
                let n = l.len() as int;
                if self.buffer@.len() == 0 {
                } else {
                    let p = self.pos@;
                    match self.gap {
                        Gap::Idle => {
                            if p <= n {
                                crate::classify::lemma_stream_upto_prefix(l, f, r, p, n);
                            } else {
                                crate::classify::lemma_stream_upto_beyond(l, f, r, p);
                            }
                        },
                        Gap::Previous => {
                            assert(stream_upto(l, f, r, p) == stream_upto(l, f, r, p - 1)
                                + emit_at(l, f, r, p));
                            assert(emit_at(l, f, r, p).len() == 2);
                            crate::classify::lemma_stream_upto_prefix(l, f, r, p, n);
                        },
                        Gap::Current => {},
                    }
                }
            },
            None => {},
        }
    }

    /// Creates a classifier over a rewound line buffer: the cursor must
    /// stand before line 1, proceeding forward. A predicate with an
    /// empty filter string is invalid input and is treated as "no
    /// predicate". Pre-fills the look-behind half of the window with
    /// empty slots and classifies the first `context_lines` source lines
    /// into the look-ahead half.
    pub fn new(filter_predicate: Option<FilterPredicate>, iter: LineBuffer<S>) -> (cb:
        ContextBuffer<S>)
        requires
            iter.wf(),
            iter.cursor() == 0,
            iter.dir() matches IterDirection::FORWARD,
            (filter_predicate matches Some(fp) && fp.filter_string@.len() > 0)
                ==> filter_predicate->Some_0.context_lines <= (usize::MAX - 1) / 2,
        ensures
            cb.wf(),
            cb.lines() == iter.all_lines(),
            cb.pred_view() == active_pred(opt_pred_view(filter_predicate)),
            cb.emitted() == 0,
    {
        let normalized: Option<FilterPredicate> = match filter_predicate {
            Some(fp) => {
                if fp.filter_string.as_str().is_empty() {
                    None
                } else {
                    Some(fp)
                }
            },
            None => None,
        };
        let mut iter = iter;
        let ghost l = iter.all_lines();
        let ghost n = l.len() as int;

        match normalized {
            Some(fp) => {
                let ghost f = fp.filter_string@;
                let ghost r = fp.context_lines as nat;
                let capacity = fp.context_lines * 2 + 1;
                let mut buffer: Vec<Option<ContextLine>> = Vec::new();

                let mut k: usize = 0;
                while k < fp.context_lines + 1
                    invariant
                        k <= fp.context_lines + 1,
                        fp.context_lines <= (usize::MAX - 1) / 2,
                        buffer@.len() == k,
                        forall|j: int| 0 <= j < k ==> (#[trigger] buffer@[j]) is None,
                    decreases fp.context_lines + 1 - k,
                {
                    buffer.push(None);
                    k = k + 1;
                }

                let mut exhausted = false;
                while !exhausted && buffer.len() < capacity
                    invariant
                        iter.wf(),
                        iter.dir() matches IterDirection::FORWARD,
                        iter.all_lines() == l,
                        n == l.len() as int,
                        f == fp.filter_string@,
                        r == fp.context_lines as nat,
                        fp.context_lines <= (usize::MAX - 1) / 2,
                        capacity == 2 * r + 1,
                        r + 1 <= buffer@.len() <= capacity,
                        iter.cursor() == vstd::math::min(buffer@.len() - r - 1, n),
                        exhausted ==> buffer@.len() - r - 1 >= n,
                        forall|j: int|
                            0 <= j < buffer@.len() ==> slot_for(l, f, j - r, #[trigger] buffer@[j]),
                    decreases capacity - buffer@.len(), (if exhausted { 0int } else { 1int }),
                {
                    let ghost prelen = buffer@.len() as int;
                    match iter.next() {
                        Some(nl) => {
                            let cl = ContextLine::from_numbered_line(nl, &fp.filter_string);
                            buffer.push(Some(cl));
                            proof {
                                assert(slot_for(l, f, prelen - r, buffer@[prelen]));
                            }
                        },
                        None => {
                            exhausted = true;
                        },
                    }
                }

                while buffer.len() < capacity
                    invariant
                        iter.wf(),
                        iter.dir() matches IterDirection::FORWARD,
                        iter.all_lines() == l,
                        n == l.len() as int,
                        f == fp.filter_string@,
                        r == fp.context_lines as nat,
                        capacity == 2 * r + 1,
                        r + 1 <= buffer@.len() <= capacity,
                        iter.cursor() == vstd::math::min(buffer@.len() - r - 1, n),
                        buffer@.len() < capacity ==> buffer@.len() - r - 1 >= n,
                        forall|j: int|
                            0 <= j < buffer@.len() ==> slot_for(l, f, j - r, #[trigger] buffer@[j]),
                    decreases capacity - buffer@.len(),
                {
                    let ghost prelen = buffer@.len() as int;
                    buffer.push(None);
                    proof {
                        assert(prelen - r > n);
                        assert(slot_for(l, f, prelen - r, buffer@[prelen]));
                    }
                }

                let cb = ContextBuffer {
                    filter_predicate: Some(fp),
                    buffer,
                    iter,
                    gap: Gap::Idle,
                    pos: Ghost(0),
                    emitted: Ghost(0),
                };
                proof {
                    assert(cb.windowed(f, r));
                    assert(stream_upto(l, f, r, 0).len() == 0);
                }
                cb
            },
            None => {
                let cb = ContextBuffer {
                    filter_predicate: None,
                    buffer: Vec::new(),
                    iter,
                    gap: Gap::Idle,
                    pos: Ghost(0),
                    emitted: Ghost(0),
                };
                cb
            },
        }
    }

    /// Consumes this `ContextBuffer`, returning the inner `LineBuffer`.
    pub fn into_line_buffer(self) -> (lb: LineBuffer<S>)
        requires
            self.wf(),
        ensures
            lb.wf(),
            lb.all_lines() == self.lines(),
            lb.dir() matches IterDirection::FORWARD,
    {
        self.iter
    }

    /// Returns `true` if any slot of the window holds a match line.
    fn buffer_has_matches(&self) -> (b: bool)
        ensures
            b == exists|j: int| 0 <= j < self.buffer@.len() && #[trigger] match_slot(self.buffer@, j),
    {
        let mut i: usize = 0;
        let mut found = false;
        while i < self.buffer.len()
            invariant
                i <= self.buffer@.len(),
                found == exists|j: int| 0 <= j < i && #[trigger] match_slot(self.buffer@, j),
            decreases self.buffer@.len() - i,
        {
            let is_m = match &self.buffer[i] {
                Some(ContextLine::Match(_)) => true,
                _ => false,
            };
            if is_m {
                proof {
                    assert(match_slot(self.buffer@, i as int));
                }
                found = true;
            }
            i = i + 1;
        }
        found
    }

    /// Advances the window by one line; while no match is in sight,
    /// keeps sliding (eliding lines) until a match enters the look-ahead
    /// — recording that a gap opened — or the source is exhausted, in
    /// which case the window empties for good.
    fn fill_buffer(&mut self)
        requires
            old(self).wf(),
            old(self).gap matches Gap::Idle,
        ensures
            final(self).iter.wf(),
            final(self).iter.dir() matches IterDirection::FORWARD,
            final(self).lines() == old(self).lines(),
            final(self).filter_predicate == old(self).filter_predicate,
            final(self).emitted@ == old(self).emitted@,
            old(self).filter_predicate matches Some(fp) ==> {
                let l = old(self).lines();
                let f = fp.filter_string@;
                let r = fp.context_lines as nat;
                let n = l.len() as int;
                let p0 = old(self).pos@;
                &&& old(self).buffer@.len() == 0 ==> {
                    &&& final(self).buffer@.len() == 0
                    &&& final(self).gap matches Gap::Idle
                    &&& final(self).iter.cursor() == n
                }
                &&& old(self).buffer@.len() > 0 ==> {
                    ||| {
                        &&& final(self).windowed(f, r)
                        &&& final(self).pos@ == p0 + 1
                        &&& final(self).gap matches Gap::Idle
                        &&& kept(l, f, r, p0 + 1)
                    }
                    ||| {
                        &&& final(self).windowed(f, r)
                        &&& final(self).pos@ >= p0 + 2
                        &&& final(self).gap matches Gap::Current
                        &&& 1 <= final(self).pos@ <= n
                        &&& kept(l, f, r, final(self).pos@)
                        &&& gap_before(l, f, r, final(self).pos@)
                        &&& stream_upto(l, f, r, final(self).pos@ - 1) == stream_upto(l, f, r, p0)
                    }
                    ||| {
                        &&& final(self).buffer@.len() == 0
                        &&& final(self).gap matches Gap::Idle
                        &&& final(self).iter.cursor() == n
                        &&& stream_upto(l, f, r, p0) == filtered_stream(l, f, r)
                    }
                }
            },
            old(self).filter_predicate is None ==> {
                let l = old(self).lines();
                let n = l.len() as int;
                let p0 = old(self).pos@;
                let p1 = if p0 <= n { p0 + 1 } else { p0 };
                &&& final(self).gap matches Gap::Idle
                &&& final(self).pos@ == p1
                &&& p1 <= n ==> {
                    &&& final(self).buffer@.len() == 1
                    &&& final(self).iter.cursor() == p1
                    &&& final(self).buffer@[0] matches Some(cl) && (!cl.is_match() && cl.line_num()
                        == p1 && cl.content() == l[p1 - 1])
                }
                &&& p1 > n ==> {
                    &&& final(self).buffer@.len() == 0
                    &&& final(self).iter.cursor() == n
                }
            },
    {
        let ghost l = self.lines();
        let ghost n = l.len() as int;
        let ghost p0 = self.pos@;

        let filter_string: Option<String> = match &self.filter_predicate {
            Some(fp) => Some(fp.filter_string.clone()),
            None => None,
        };

        match filter_string {
            Some(fs) => {
                let ghost f = fs@;
                let ghost r = self.filter_predicate->Some_0.context_lines as nat;

                if self.buffer.len() == 0 {
                    // Terminal: the source is exhausted, so the window
                    // stays empty for good.
                    let _ = self.iter.next();
                    return ;
                }

                // Slide the window one line forward.
                let item = match self.iter.next() {
                    Some(nl) => Some(ContextLine::from_numbered_line(nl, &fs)),
                    None => None,
                };
                let ghost itemg = item;
                let ghost oldbuf = self.buffer@;
                self.buffer.remove(0);
                self.buffer.push(item);
                proof {
                    self.pos@ = p0 + 1;
                    assert(self.buffer@ =~= oldbuf.remove(0).push(itemg));
                    assert(slot_for(l, f, p0 + 1 + r, itemg));
                    assert forall|j: int|
                        0 <= j < self.buffer@.len() implies slot_for(
                        l,
                        f,
                        self.pos@ - r + j,
                        #[trigger] self.buffer@[j],
                    ) by {
                        if j < self.buffer@.len() - 1 {
                            assert(self.buffer@[j] == oldbuf[j + 1]);
                            assert(slot_for(l, f, p0 - r + (j + 1), oldbuf[j + 1]));
                        } else {
                            assert(self.buffer@[j] == itemg);
                        }
                    }
                    assert(self.windowed(f, r));
                }

                // While nothing in sight matches, keep eliding lines.
                let ghost p_entry = self.pos@;
                let mut cleared = false;
                while !cleared && !self.buffer_has_matches()
                    invariant
                        self.iter.wf(),
                        self.iter.dir() matches IterDirection::FORWARD,
                        self.lines() == l,
                        n == l.len() as int,
                        self.filter_predicate == old(self).filter_predicate,
                        self.filter_predicate matches Some(fp) && fp.filter_string@ == f
                            && fp.context_lines as nat == r,
                        self.emitted@ == old(self).emitted@,
                        2 * r + 1 <= usize::MAX,
                        fs@ == f,
                        0 <= p0,
                        p_entry == p0 + 1,
                        !cleared ==> self.windowed(f, r),
                        !cleared ==> p_entry <= self.pos@,
                        forall|q: int| p0 < q < self.pos@ ==> !kept(l, f, r, q),
                        self.gap matches Gap::Idle || self.gap matches Gap::Current,
                        (self.gap matches Gap::Idle && kept(l, f, r, self.pos@) && !cleared)
                            ==> self.pos@ == p_entry,
                        self.gap matches Gap::Current ==> {
                            &&& !cleared
                            &&& self.pos@ >= p0 + 2
                            &&& 1 <= self.pos@ <= n
                            &&& kept(l, f, r, self.pos@)
                            &&& gap_before(l, f, r, self.pos@)
                        },
                        cleared ==> {
                            &&& self.buffer@.len() == 0
                            &&& self.gap matches Gap::Idle
                            &&& self.iter.cursor() == n
                            &&& forall|q: int| q > p0 ==> !kept(l, f, r, q)
                        },
                    decreases n + r + 1 - self.pos@, (if cleared { 0int } else { 1int }),
                {
                    proof {
                        lemma_window_match_kept(l, f, r, self.pos@, self.buffer@);
                        assert(!kept(l, f, r, self.pos@));
                    }
                    let ghost p_cur = self.pos@;
                    match self.iter.next() {
                        Some(nl) => {
                            let context_line = ContextLine::from_numbered_line(nl, &fs);
                            let is_match_line = match &context_line {
                                ContextLine::Match(_) => true,
                                _ => false,
                            };
                            if is_match_line {
                                self.gap = Gap::Current;
                            }
                            let ghost clg = context_line;
                            let ghost oldbuf2 = self.buffer@;
                            self.buffer.remove(0);
                            self.buffer.push(Some(context_line));
                            proof {
                                self.pos@ = p_cur + 1;
                                assert(self.buffer@ =~= oldbuf2.remove(0).push(Some(clg)));
                                assert(nl.0 as int == vstd::math::min(p_cur + r, n) + 1);
                                assert(p_cur + r < n);
                                assert(clg.line_num() == p_cur + r + 1);
                                assert(slot_for(l, f, p_cur + r + 1, Some(clg)));
                                assert forall|j: int|
                                    0 <= j < self.buffer@.len() implies slot_for(
                                    l,
                                    f,
                                    self.pos@ - r + j,
                                    #[trigger] self.buffer@[j],
                                ) by {
                                    if j < self.buffer@.len() - 1 {
                                        assert(self.buffer@[j] == oldbuf2[j + 1]);
                                        assert(slot_for(l, f, p_cur - r + (j + 1), oldbuf2[j + 1]));
                                    } else {
                                        assert(self.buffer@[j] == Some(clg));
                                    }
                                }
                                if is_match_line {
                                    assert(is_match_at(l, f, p_cur + r + 1));
                                    assert(kept(l, f, r, self.pos@));
                                } else {
                                    assert forall|j: int|
                                        0 <= j < self.buffer@.len() implies !match_slot(
                                        self.buffer@,
                                        j,
                                    ) by {
                                        if j < self.buffer@.len() - 1 {
                                            assert(self.buffer@[j] == oldbuf2[j + 1]);
                                            assert(!match_slot(oldbuf2, j + 1));
                                        } else {
                                            assert(self.buffer@[j] == Some(clg));
                                        }
                                    }
                                    lemma_window_match_kept(l, f, r, self.pos@, self.buffer@);
                                    assert(!kept(l, f, r, self.pos@));
                                }
                            }
                        },
                        None => {
                            proof {
                                assert(self.iter.cursor() == n);
                                assert(p_cur + r >= n);
                                assert forall|q: int| q > p0 implies !kept(l, f, r, q) by {
                                    if q < self.pos@ {
                                    } else if q == self.pos@ {
                                    } else {
                                        if kept(l, f, r, q) {
                                            let m = choose|m: int|
                                                #[trigger] is_match_at(l, f, m) && q - r <= m <= q
                                                    + r;
                                            assert(m <= n);
                                            assert(m >= q - r > p_cur - r);
                                            let j = m - p_cur + r;
                                            assert(slot_for(l, f, m, self.buffer@[j]));
                                            assert(self.buffer@[j] matches Some(cl)
                                                && cl.is_match());
                                            assert(false);
                                        }
                                    }
                                }
                            }
                            self.buffer.clear();
                            cleared = true;
                        },
                    }
                }

                proof {
                    if !cleared {
                        lemma_window_match_kept(l, f, r, self.pos@, self.buffer@);
                        assert(kept(l, f, r, self.pos@));
                        match self.gap {
                            Gap::Idle => {
                                assert(self.pos@ == p0 + 1);
                            },
                            Gap::Current => {
                                crate::classify::lemma_stream_upto_flat(
                                    l,
                                    f,
                                    r,
                                    p0,
                                    self.pos@ - 1,
                                );
                            },
                            Gap::Previous => {
                                assert(false);
                            },
                        }
                    } else {
                        if p0 <= n {
                            crate::classify::lemma_stream_upto_flat(l, f, r, p0, n);
                        } else {
                            crate::classify::lemma_stream_upto_beyond(l, f, r, p0);
                        }
                    }
                }
            },
            None => {
                if self.buffer.len() > 0 {
                    self.buffer.remove(0);
                }
                match self.iter.next() {
                    Some(nl) => {
                        let context_line = ContextLine::NoMatch(nl);
                        self.buffer.push(Some(context_line));
                        proof {
                            self.pos@ = p0 + 1;
                        }
                    },
                    None => {
                        proof {
                            self.pos@ = n + 1;
                        }
                    },
                }
            },
        }
    }

    /// Maps the slot at the window's centre to the `FilteredLine` it
    /// stands for: nothing when the slot is empty.
    fn classify_cur_line(&self) -> (r: Option<FilteredLine>)
        ensures
            ({
                let idx: int = match self.filter_predicate {
                    Some(fp) => fp.context_lines as int,
                    None => 0,
                };
                &&& idx < self.buffer@.len() ==> (match self.buffer@[idx] {
                    Some(cl) => r matches Some(fl) && fl@ == (if cl.is_match() {
                        LineView::Match(cl.line_num(), cl.content())
                    } else if self.filter_predicate is Some {
                        LineView::Context(cl.line_num(), cl.content())
                    } else {
                        LineView::Unfiltered(cl.line_num(), cl.content())
                    }),
                    None => r is None,
                })
                &&& idx >= self.buffer@.len() ==> r is None
            }),
    {
        let cur_idx: usize = match &self.filter_predicate {
            Some(fp) => fp.context_lines,
            None => 0,
        };
        if cur_idx < self.buffer.len() {
            match &self.buffer[cur_idx] {
                Some(context_line) => Some(context_line.to_filtered_line(&self.filter_predicate)),
                None => None,
            }
        } else {
            None
        }
    }

    /// Produces the next classified line of the stream, or `None` once
    /// the stream is exhausted.
    pub fn next(&mut self) -> (r: Option<FilteredLine>)
        requires
            old(self).wf(),
        ensures
            final(self).wf(),
            final(self).lines() == old(self).lines(),
            final(self).pred_view() == old(self).pred_view(),
            old(self).emitted() < old(self).stream().len() ==> (r matches Some(fl) && fl@ == old(
                self,
            ).stream()[old(self).emitted()] && final(self).emitted() == old(self).emitted() + 1),
            old(self).emitted() >= old(self).stream().len() ==> (r is None && final(self).emitted()
                == old(self).emitted()),
    {
        proof {
            self.lemma_emitted_bounds();
        }
        let ghost pre = *old(self);
        let ghost l = self.lines();
        let ghost n = l.len() as int;
        let is_idle = match self.gap {
            Gap::Idle => true,
            _ => false,
        };
        if is_idle {
            self.fill_buffer();
            let advanced_to_gap = match self.gap {
                Gap::Current => true,
                _ => false,
            };
            if advanced_to_gap {
                self.gap = Gap::Previous;
                proof {
                    let fp = pre.filter_predicate->Some_0;
                    let f = fp.filter_string@;
                    let rad = fp.context_lines as nat;
                    let p0 = pre.pos@;
                    let p = self.pos@;
                    assert(stream_upto(l, f, rad, p) == stream_upto(l, f, rad, p - 1) + emit_at(
                        l,
                        f,
                        rad,
                        p,
                    ));
                    assert(emit_at(l, f, rad, p) =~= seq![
                        LineView::Gap,
                        line_view_at(l, f, p),
                    ]);
                    crate::classify::lemma_stream_upto_prefix(l, f, rad, p, n);
                    assert(pre.emitted@ == stream_upto(l, f, rad, p - 1).len());
                    assert(stream_upto(l, f, rad, p)[pre.emitted@] == LineView::Gap);
                    assert(stream_upto(l, f, rad, p) =~= filtered_stream(l, f, rad).subrange(
                        0,
                        stream_upto(l, f, rad, p).len() as int,
                    ));
                    assert(filtered_stream(l, f, rad)[pre.emitted@] == LineView::Gap);
                    assert(pre.emitted@ < filtered_stream(l, f, rad).len());
                    self.emitted@ = pre.emitted@ + 1;
                }
                Some(FilteredLine::Gap)
            } else {
                self.gap = Gap::Idle;
                let result = self.classify_cur_line();
                proof {
                    match pre.filter_predicate {
                        Some(fp) => {
                            let f = fp.filter_string@;
                            let rad = fp.context_lines as nat;
                            let p0 = pre.pos@;
                            if pre.buffer@.len() == 0 {
                                assert(result is None);
                            } else if self.buffer@.len() == 0 {
                                assert(result is None);
                                assert(pre.emitted@ == filtered_stream(l, f, rad).len());
                            } else {
                                let p = p0 + 1;
                                assert(self.pos@ == p);
                                assert(slot_for(l, f, p, self.buffer@[rad as int]));
                                if p <= n {
                                    assert(result matches Some(fl) && fl@ == line_view_at(
                                        l,
                                        f,
                                        p,
                                    ));
                                    assert(!gap_before(l, f, rad, p));
                                    assert(emit_at(l, f, rad, p) =~= seq![line_view_at(l, f, p)]);
                                    assert(stream_upto(l, f, rad, p) == stream_upto(l, f, rad, p0)
                                        + emit_at(l, f, rad, p));
                                    assert(pre.emitted@ == stream_upto(l, f, rad, p0).len());
                                    assert(stream_upto(l, f, rad, p)[pre.emitted@]
                                        == line_view_at(l, f, p));
                                    crate::classify::lemma_stream_upto_prefix(l, f, rad, p, n);
                                    assert(stream_upto(l, f, rad, p) =~= filtered_stream(
                                        l,
                                        f,
                                        rad,
                                    ).subrange(0, stream_upto(l, f, rad, p).len() as int));
                                    assert(filtered_stream(l, f, rad)[pre.emitted@]
                                        == line_view_at(l, f, p));
                                    assert(pre.emitted@ < filtered_stream(l, f, rad).len());
                                } else {
                                    assert(result is None);
                                    crate::classify::lemma_stream_upto_beyond(l, f, rad, p0);
                                    crate::classify::lemma_stream_upto_beyond(l, f, rad, p);
                                }
                            }
                        },
                        None => {
                            let p0 = pre.pos@;
                            let p1: int = if p0 <= n {
                                p0 + 1
                            } else {
                                p0
                            };
                            if p1 <= n {
                                assert(result matches Some(fl) && fl@ == LineView::Unfiltered(
                                    p1,
                                    l[p1 - 1],
                                ));
                                assert(unfiltered_stream(l)[p1 - 1] == LineView::Unfiltered(
                                    p1,
                                    l[p1 - 1],
                                ));
                            } else {
                                assert(result is None);
                            }
                        },
                    }
                }
                if result.is_some() {
                    proof {
                        self.emitted@ = self.emitted@ + 1;
                    }
                }
                result
            }
        } else {
            self.gap = Gap::Idle;
            let result = self.classify_cur_line();
            proof {
                let fp = pre.filter_predicate->Some_0;
                let f = fp.filter_string@;
                let rad = fp.context_lines as nat;
                let p = pre.pos@;
                assert(slot_for(l, f, p, self.buffer@[rad as int]));
                assert(result matches Some(fl) && fl@ == line_view_at(l, f, p));
                assert(emit_at(l, f, rad, p) =~= seq![LineView::Gap, line_view_at(l, f, p)]);
                assert(stream_upto(l, f, rad, p) == stream_upto(l, f, rad, p - 1) + emit_at(
                    l,
                    f,
                    rad,
                    p,
                ));
                assert(pre.emitted@ == stream_upto(l, f, rad, p - 1).len() + 1);
                assert(stream_upto(l, f, rad, p)[pre.emitted@] == line_view_at(l, f, p));
                crate::classify::lemma_stream_upto_prefix(l, f, rad, p, n);
                assert(stream_upto(l, f, rad, p) =~= filtered_stream(l, f, rad).subrange(
                    0,
                    stream_upto(l, f, rad, p).len() as int,
                ));
                assert(filtered_stream(l, f, rad)[pre.emitted@] == line_view_at(l, f, p));
                assert(pre.emitted@ < filtered_stream(l, f, rad).len());
            }
            if result.is_some() {
                proof {
                    self.emitted@ = self.emitted@ + 1;
                }
            }
            result
        }
    }
}

} // verus!
