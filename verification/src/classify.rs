//! The declarative meaning of classification: given the full sequence of
//! source lines and an (optional) predicate, which classified lines the
//! pipeline emits, in order.
//!
//! Positions are 1-based source line numbers throughout, matching the
//! numbering of `LineBuffer`.

use vstd::prelude::*;
use crate::filtered::{LineView, PredView};
use crate::substring::contains_seq;

verus! {

/// Whether source line `i` matches the filter string.
pub open spec fn is_match_at(lines: Seq<Seq<char>>, filter: Seq<char>, i: int) -> bool {
    &&& 1 <= i <= lines.len()
    &&& contains_seq(lines[i - 1], filter)
}

/// Whether source line `i` is kept in the classified output: some match
/// lies within `radius` positions of it.
pub open spec fn kept(lines: Seq<Seq<char>>, filter: Seq<char>, radius: nat, i: int) -> bool {
    exists|j: int| #[trigger] is_match_at(lines, filter, j) && i - radius <= j <= i + radius
}

/// The classified line emitted for kept source line `i`.
pub open spec fn line_view_at(lines: Seq<Seq<char>>, filter: Seq<char>, i: int) -> LineView {
    if is_match_at(lines, filter, i) {
        LineView::Match(i, lines[i - 1])
    } else {
        LineView::Context(i, lines[i - 1])
    }
}

/// Whether a gap marker stands immediately before kept line `i`: some
/// lines before it were elided.
pub open spec fn gap_before(lines: Seq<Seq<char>>, filter: Seq<char>, radius: nat, i: int) -> bool {
    i > 1 && !kept(lines, filter, radius, i - 1)
}

/// What the classifier emits while source line `i` is current: nothing
/// for an elided line, the classified line for a kept one, preceded by
/// one gap marker when lines just before it were elided.
pub open spec fn emit_at(lines: Seq<Seq<char>>, filter: Seq<char>, radius: nat, i: int) -> Seq<
    LineView,
> {
    if 1 <= i <= lines.len() && kept(lines, filter, radius, i) {
        if gap_before(lines, filter, radius, i) {
            seq![LineView::Gap, line_view_at(lines, filter, i)]
        } else {
            seq![line_view_at(lines, filter, i)]
        }
    } else {
        Seq::empty()
    }
}

/// Everything the classifier emits for source lines `1..=c`.
pub open spec fn stream_upto(lines: Seq<Seq<char>>, filter: Seq<char>, radius: nat, c: int) -> Seq<
    LineView,
>
    decreases c,
{
    if c <= 0 {
        Seq::empty()
    } else {
        stream_upto(lines, filter, radius, c - 1) + emit_at(lines, filter, radius, c)
    }
}

/// The whole classified stream under an active predicate.
pub open spec fn filtered_stream(lines: Seq<Seq<char>>, filter: Seq<char>, radius: nat) -> Seq<
    LineView,
> {
    stream_upto(lines, filter, radius, lines.len() as int)
}

/// The whole classified stream with no predicate: every line verbatim.
pub open spec fn unfiltered_stream(lines: Seq<Seq<char>>) -> Seq<LineView> {
    Seq::new(lines.len(), |i: int| LineView::Unfiltered(i + 1, lines[i]))
}

/// The whole classified stream of a source under an optional predicate.
pub open spec fn classified_stream(lines: Seq<Seq<char>>, pred: Option<PredView>) -> Seq<
    LineView,
> {
    match pred {
        Some(p) => filtered_stream(lines, p.filter_string, p.context_lines),
        None => unfiltered_stream(lines),
    }
}

/// An active predicate: a predicate with an empty filter string is
/// invalid input and stands for "no predicate".
pub open spec fn active_pred(pred: Option<PredView>) -> Option<PredView> {
    match pred {
        Some(p) => if p.filter_string.len() == 0 {
            None
        } else {
            Some(p)
        },
        None => None,
    }
}

/// Prefixes of the emission are prefixes of the stream: what is emitted
/// while line `c1` is current never changes as later lines are read.
pub proof fn lemma_stream_upto_prefix(
    lines: Seq<Seq<char>>,
    filter: Seq<char>,
    radius: nat,
    c1: int,
    c2: int,
)
    requires
        c1 <= c2,
    ensures
        stream_upto(lines, filter, radius, c1).is_prefix_of(
            stream_upto(lines, filter, radius, c2),
        ),
    decreases c2 - c1,
{
    if c1 < c2 {
        lemma_stream_upto_prefix(lines, filter, radius, c1, c2 - 1);
        assert(stream_upto(lines, filter, radius, c2) == stream_upto(lines, filter, radius, c2 - 1)
            + emit_at(lines, filter, radius, c2));
        assert(stream_upto(lines, filter, radius, c1).is_prefix_of(
            stream_upto(lines, filter, radius, c2),
        ));
    } else {
        assert(stream_upto(lines, filter, radius, c1).is_prefix_of(
            stream_upto(lines, filter, radius, c2),
        ));
    }
}

/// Where nothing is kept, nothing is emitted: the stream is flat over a
/// stretch of elided (or absent) lines.
pub proof fn lemma_stream_upto_flat(
    lines: Seq<Seq<char>>,
    filter: Seq<char>,
    radius: nat,
    c1: int,
    c2: int,
)
    requires
        c1 <= c2,
        forall|i: int| c1 < i <= c2 ==> emit_at(lines, filter, radius, i) == Seq::<LineView>::empty(),
    ensures
        stream_upto(lines, filter, radius, c2) == stream_upto(lines, filter, radius, c1),
    decreases c2 - c1,
{
    if c1 < c2 {
        lemma_stream_upto_flat(lines, filter, radius, c1, c2 - 1);
        assert(stream_upto(lines, filter, radius, c2) =~= stream_upto(
            lines,
            filter,
            radius,
            c2 - 1,
        ));
    }
}

/// Beyond the last source line the stream no longer grows.
pub proof fn lemma_stream_upto_beyond(
    lines: Seq<Seq<char>>,
    filter: Seq<char>,
    radius: nat,
    c: int,
)
    requires
        c >= lines.len(),
    ensures
        stream_upto(lines, filter, radius, c) == filtered_stream(lines, filter, radius),
{
    lemma_stream_upto_flat(lines, filter, radius, lines.len() as int, c);
}


/// With no predicate, the classified stream equals the source lines
/// verbatim, each as `Unfiltered` with its 1-based line number, and no
/// `Gap` is ever emitted.
pub proof fn lemma_no_predicate_stream(lines: Seq<Seq<char>>)
    ensures
        classified_stream(lines, None::<PredView>).len() == lines.len(),
        forall|i: int|
            0 <= i < lines.len() ==> classified_stream(lines, None::<PredView>)[i]
                == LineView::Unfiltered(i + 1, lines[i]),
{
}

/// A classified stream with its gap markers removed.
pub open spec fn without_gaps(s: Seq<LineView>) -> Seq<LineView>
    decreases s.len(),
{
    if s.len() == 0 {
        Seq::empty()
    } else {
        without_gaps(s.drop_last()) + (if s.last() is Gap {
            Seq::empty()
        } else {
            seq![s.last()]
        })
    }
}

/// The source lines containing the filter string, in order, each as a
/// `Match`, among lines `1..=c`.
pub open spec fn matching_lines_upto(lines: Seq<Seq<char>>, filter: Seq<char>, c: int) -> Seq<
    LineView,
>
    decreases c,
{
    if c <= 0 {
        Seq::empty()
    } else {
        matching_lines_upto(lines, filter, c - 1) + (if is_match_at(lines, filter, c) {
            seq![LineView::Match(c, lines[c - 1])]
        } else {
            Seq::empty()
        })
    }
}

/// The source lines containing the filter string, in order.
pub open spec fn matching_lines(lines: Seq<Seq<char>>, filter: Seq<char>) -> Seq<LineView> {
    matching_lines_upto(lines, filter, lines.len() as int)
}

proof fn lemma_radius_zero_upto(lines: Seq<Seq<char>>, filter: Seq<char>, c: int)
    ensures
        without_gaps(stream_upto(lines, filter, 0, c)) == matching_lines_upto(lines, filter, c),
    decreases c,
{
    if c <= 0 {
        assert(stream_upto(lines, filter, 0, c) =~= Seq::<LineView>::empty());
    } else {
        lemma_radius_zero_upto(lines, filter, c - 1);
        let a = stream_upto(lines, filter, 0, c - 1);
        let e = emit_at(lines, filter, 0, c);
        assert(stream_upto(lines, filter, 0, c) == a + e);
        if 1 <= c <= lines.len() && kept(lines, filter, 0, c) {
            assert(is_match_at(lines, filter, c));
            assert(line_view_at(lines, filter, c) == LineView::Match(c, lines[c - 1]));
            if gap_before(lines, filter, 0, c) {
                let with_gap = a.push(LineView::Gap);
                assert(a + e =~= with_gap.push(line_view_at(lines, filter, c)));
                assert(with_gap.push(line_view_at(lines, filter, c)).drop_last() =~= with_gap);
                assert(with_gap.drop_last() =~= a);
                assert(without_gaps(with_gap) == without_gaps(a));
                assert(without_gaps(a + e) =~= without_gaps(a).push(
                    LineView::Match(c, lines[c - 1]),
                ));
            } else {
                assert(a + e =~= a.push(line_view_at(lines, filter, c)));
                assert(a.push(line_view_at(lines, filter, c)).drop_last() =~= a);
                assert(without_gaps(a + e) =~= without_gaps(a).push(
                    LineView::Match(c, lines[c - 1]),
                ));
            }
            assert(matching_lines_upto(lines, filter, c) =~= matching_lines_upto(
                lines,
                filter,
                c - 1,
            ).push(LineView::Match(c, lines[c - 1])));
        } else {
            assert(!is_match_at(lines, filter, c));
            assert(a + e =~= a);
            assert(matching_lines_upto(lines, filter, c) =~= matching_lines_upto(
                lines,
                filter,
                c - 1,
            ));
        }
    }
}

/// With `context_radius = 0`, the classified stream, ignoring `Gap`s,
/// equals the sequence of source lines containing the filter string, in
/// order, each emitted as a `Match`.
pub proof fn lemma_radius_zero_matches(lines: Seq<Seq<char>>, filter: Seq<char>)
    ensures
        without_gaps(filtered_stream(lines, filter, 0)) == matching_lines(lines, filter),
{
    lemma_radius_zero_upto(lines, filter, lines.len() as int);
}

proof fn lemma_stream_upto_items(
    lines: Seq<Seq<char>>,
    filter: Seq<char>,
    radius: nat,
    c: int,
    k: int,
)
    requires
        0 <= k < stream_upto(lines, filter, radius, c).len(),
    ensures
        match stream_upto(lines, filter, radius, c)[k] {
            LineView::Match(i, content) => is_match_at(lines, filter, i) && content == lines[i
                - 1],
            LineView::Context(i, content) => {
                &&& 1 <= i <= lines.len()
                &&& content == lines[i - 1]
                &&& !is_match_at(lines, filter, i)
                &&& kept(lines, filter, radius, i)
            },
            LineView::Gap => true,
            LineView::Unfiltered(_, _) => false,
        },
    decreases c,
{
    if c <= 0 {
    } else {
        let a = stream_upto(lines, filter, radius, c - 1);
        if k < a.len() {
            lemma_stream_upto_items(lines, filter, radius, c - 1, k);
        }
    }
}

/// Every `Match` of the classified stream is a source line containing
/// the filter string, and every `Context` line lies within
/// `context_radius` positions (in source line numbers) of some match
/// line of its group; `Unfiltered` lines never appear under a
/// predicate.
pub proof fn lemma_emitted_lines_near_match(
    lines: Seq<Seq<char>>,
    filter: Seq<char>,
    radius: nat,
    k: int,
)
    requires
        0 <= k < filtered_stream(lines, filter, radius).len(),
    ensures
        match filtered_stream(lines, filter, radius)[k] {
            LineView::Match(i, content) => is_match_at(lines, filter, i) && content == lines[i
                - 1],
            LineView::Context(i, content) => {
                &&& 1 <= i <= lines.len()
                &&& content == lines[i - 1]
                &&& !is_match_at(lines, filter, i)
                &&& kept(lines, filter, radius, i)
            },
            LineView::Gap => true,
            LineView::Unfiltered(_, _) => false,
        },
{
    lemma_stream_upto_items(lines, filter, radius, lines.len() as int, k);
}

proof fn lemma_stream_upto_gap_shape(lines: Seq<Seq<char>>, filter: Seq<char>, radius: nat, c: int)
    ensures
        stream_upto(lines, filter, radius, c).len() > 0 ==> !(stream_upto(
            lines,
            filter,
            radius,
            c,
        ).last() is Gap),
        forall|k: int|
            0 <= k < stream_upto(lines, filter, radius, c).len() - 1 ==> !((#[trigger] stream_upto(
                lines,
                filter,
                radius,
                c,
            )[k]) is Gap && stream_upto(lines, filter, radius, c)[k + 1] is Gap),
    decreases c,
{
    if c <= 0 {
    } else {
        lemma_stream_upto_gap_shape(lines, filter, radius, c - 1);
        let a = stream_upto(lines, filter, radius, c - 1);
        let e = emit_at(lines, filter, radius, c);
        assert(stream_upto(lines, filter, radius, c) == a + e);
        assert forall|k: int|
            0 <= k < (a + e).len() - 1 implies !((#[trigger] (a + e)[k]) is Gap && (a + e)[k
            + 1] is Gap) by {
            if k + 1 < a.len() {
                assert((a + e)[k] == a[k]);
                assert((a + e)[k + 1] == a[k + 1]);
            } else if k + 1 == a.len() {
                assert((a + e)[k] == a[k]);
            } else {
                assert((a + e)[k] == e[k - a.len()]);
                assert((a + e)[k + 1] == e[k + 1 - a.len()]);
            }
        }
    }
}

/// No two `Gap` markers are ever adjacent in the classified stream, and
/// the stream never ends with one: a `Gap` always stands between two
/// context groups.
pub proof fn lemma_no_adjacent_gaps(lines: Seq<Seq<char>>, filter: Seq<char>, radius: nat)
    ensures
        filtered_stream(lines, filter, radius).len() > 0 ==> !(filtered_stream(
            lines,
            filter,
            radius,
        ).last() is Gap),
        forall|k: int|
            0 <= k < filtered_stream(lines, filter, radius).len() - 1 ==> !((
            #[trigger] filtered_stream(lines, filter, radius)[k]) is Gap && filtered_stream(
                lines,
                filter,
                radius,
            )[k + 1] is Gap),
{
    lemma_stream_upto_gap_shape(lines, filter, radius, lines.len() as int);
}

/// Between two adjacent kept lines `a < b` (none kept in between),
/// exactly one `Gap` is emitted when source lines between them were
/// elided (`b - a > 1`), and none when they are adjacent in the source.
pub proof fn lemma_gap_between_groups(
    lines: Seq<Seq<char>>,
    filter: Seq<char>,
    radius: nat,
    a: int,
    b: int,
)
    requires
        1 <= a < b <= lines.len(),
        kept(lines, filter, radius, a),
        kept(lines, filter, radius, b),
        forall|q: int| a < q < b ==> !kept(lines, filter, radius, q),
    ensures
        stream_upto(lines, filter, radius, b) == stream_upto(lines, filter, radius, a) + (if b - a
            > 1 {
            seq![LineView::Gap, line_view_at(lines, filter, b)]
        } else {
            seq![line_view_at(lines, filter, b)]
        }),
{
    lemma_stream_upto_flat(lines, filter, radius, a, b - 1);
    assert(stream_upto(lines, filter, radius, b) == stream_upto(lines, filter, radius, b - 1)
        + emit_at(lines, filter, radius, b));
    if b - a > 1 {
        assert(!kept(lines, filter, radius, b - 1));
        assert(gap_before(lines, filter, radius, b));
        assert(emit_at(lines, filter, radius, b) =~= seq![
            LineView::Gap,
            line_view_at(lines, filter, b),
        ]);
    } else {
        assert(!gap_before(lines, filter, radius, b));
        assert(emit_at(lines, filter, radius, b) =~= seq![line_view_at(lines, filter, b)]);
    }
}

/// Two consecutive match lines whose distance exceeds `2*radius + 1`
/// have their context groups separated by exactly one `Gap`: the last
/// context line of the first group is `j1 + radius`, the first of the
/// second is `j2 - radius`, and one `Gap` stands between them.
pub proof fn lemma_gap_between_match_groups(
    lines: Seq<Seq<char>>,
    filter: Seq<char>,
    radius: nat,
    j1: int,
    j2: int,
)
    requires
        is_match_at(lines, filter, j1),
        is_match_at(lines, filter, j2),
        j2 - j1 > 2 * radius + 1,
        forall|j: int| j1 < j < j2 ==> !is_match_at(lines, filter, j),
    ensures
        stream_upto(lines, filter, radius, j2 - radius) == stream_upto(
            lines,
            filter,
            radius,
            j1 + radius,
        ) + seq![LineView::Gap, line_view_at(lines, filter, j2 - radius)],
{
    let a = j1 + radius;
    let b = j2 - radius;
    assert(kept(lines, filter, radius, a));
    assert(kept(lines, filter, radius, b));
    assert forall|q: int| a < q < b implies !kept(lines, filter, radius, q) by {
        if kept(lines, filter, radius, q) {
            let m = choose|m: int|
                #[trigger] is_match_at(lines, filter, m) && q - radius <= m <= q + radius;
            assert(j1 < m < j2);
            assert(false);
        }
    }
    lemma_gap_between_groups(lines, filter, radius, a, b);
}

} // verus!
