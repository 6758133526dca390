//! Search highlights laid over the styled spans of a line.

use crate::search::Match;
use crate::styled::{spans_view, SpanView, StyledSpan};
use ratatui::style::{Color, Style};
use vstd::prelude::*;
use vstd::string::StringSliceAdditionalSpecFns;
use vstd::utf8::*;

verus! {

broadcast use {encode_utf8_valid_utf8, is_char_boundary_iff_not_is_continuation_byte};

/// A byte range `[start, end)` of a line's text to highlight, either as the
/// current match or as another one.
#[derive(Clone, Copy, Debug, PartialEq, Eq, Structural)]
pub struct HighlightRange {
    pub start: usize,
    pub end: usize,
    pub is_current: bool,
}

/// The index of the first range of `hs`, from the `i`-th on, that covers byte `k`.
pub open spec fn cover_from(hs: Seq<HighlightRange>, k: int, i: int) -> Option<int>
    decreases hs.len() - i,
{
    if i < 0 || i >= hs.len() {
        None
    } else if hs[i].start <= k < hs[i].end {
        Some(i)
    } else {
        cover_from(hs, k, i + 1)
    }
}

/// The highlight of byte `x` of a span whose text `b` starts at byte `o` of the
/// line: the first range that covers the first byte of the character that
/// holds byte `x`.
pub open spec fn byte_class(b: Seq<u8>, o: int, hs: Seq<HighlightRange>, x: int) -> Option<int>
    decreases x,
{
    if x <= 0 || is_char_boundary(b, x) {
        cover_from(hs, o + x, 0)
    } else {
        byte_class(b, o, hs, x - 1)
    }
}

/// The background of the current match.
pub open spec fn current_background() -> Color {
    Color::Cyan
}

/// The background of the other matches.
pub open spec fn other_background() -> Color {
    Color::DarkGray
}

/// `style` as it is outside any highlight, and with the highlight's
/// background, all else kept, inside one.
pub open spec fn class_style(style: Style, cls: Option<int>, hs: Seq<HighlightRange>) -> Style {
    match cls {
        None => style,
        Some(i) => Style {
            bg: Some(if hs[i].is_current { current_background() } else { other_background() }),
            ..style
        },
    }
}

/// The maximal runs of bytes of `b` with one highlight, from the run that
/// begins at `start` and has been scanned up to `x`.
pub open spec fn class_runs(b: Seq<u8>, o: int, hs: Seq<HighlightRange>, start: int, x: int) -> Seq<
    (int, int),
>
    decreases b.len() - x,
{
    if x >= b.len() {
        if start < b.len() {
            seq![(start, b.len() as int)]
        } else {
            Seq::empty()
        }
    } else if x > start && byte_class(b, o, hs, x) != byte_class(b, o, hs, start) {
        seq![(start, x)] + class_runs(b, o, hs, x, x + 1)
    } else {
        class_runs(b, o, hs, start, x + 1)
    }
}

/// `r` cuts the bytes `[start, b.len())` of `b` into runs: contiguous, non-empty,
/// each holding bytes of one highlight, with neighbours of different
/// highlights, and each starting on a character boundary.
pub open spec fn is_run_split(b: Seq<u8>, o: int, hs: Seq<HighlightRange>, start: int, r: Seq<(int, int)>) -> bool {
    &&& r.len() > 0
    &&& r[0].0 == start
    &&& r.last().1 == b.len()
    &&& forall|x: int| 0 <= x < r.len() ==> (#[trigger] r[x]).0 < r[x].1
    &&& forall|x: int| 0 <= x < r.len() - 1 ==> (#[trigger] r[x]).1 == r[x + 1].0
    &&& forall|x: int, y: int|
        #![trigger r[x], byte_class(b, o, hs, y)]
        0 <= x < r.len() && r[x].0 <= y < r[x].1 ==> byte_class(b, o, hs, y) == byte_class(
            b,
            o,
            hs,
            r[x].0,
        )
    &&& forall|x: int|
        0 <= x < r.len() - 1 ==> byte_class(b, o, hs, (#[trigger] r[x + 1]).0) != byte_class(
            b,
            o,
            hs,
            r[x].0,
        )
    &&& forall|x: int| 0 <= x < r.len() ==> is_char_boundary(b, (#[trigger] r[x]).0)
}

proof fn lemma_runs_from(b: Seq<u8>, o: int, hs: Seq<HighlightRange>, start: int, x: int)
    requires
        0 <= start < x <= b.len(),
        is_char_boundary(b, start),
        forall|y: int| start <= y < x ==> byte_class(b, o, hs, y) == byte_class(b, o, hs, start),
    ensures
        is_run_split(b, o, hs, start, class_runs(b, o, hs, start, x)),
    decreases b.len() - x,
{
    let r = class_runs(b, o, hs, start, x);
    if x >= b.len() {
        assert(r == seq![(start, b.len() as int)]);
    } else if byte_class(b, o, hs, x) != byte_class(b, o, hs, start) {
        assert(is_char_boundary(b, x)) by {
            if !is_char_boundary(b, x) {
                assert(byte_class(b, o, hs, x) == byte_class(b, o, hs, x - 1));
            }
        }
        lemma_runs_from(b, o, hs, x, x + 1);
        let rest = class_runs(b, o, hs, x, x + 1);
        assert(r == seq![(start, x)] + rest);
        assert forall|y: int, z: int|
            #![trigger r[y], byte_class(b, o, hs, z)]
            0 <= y < r.len() && r[y].0 <= z < r[y].1 implies byte_class(b, o, hs, z) == byte_class(b, o, hs, r[y].0) by {
            if y > 0 {
                assert(r[y] == rest[y - 1]);
            }
        }
        assert forall|y: int| 0 <= y < r.len() - 1 implies byte_class(b, o, hs, (#[trigger] r[y + 1]).0) != byte_class(b, o, hs, r[y].0) by {
            assert(r[y + 1] == rest[y]);
            if y > 0 {
                assert(r[y] == rest[y - 1]);
            }
        }
        assert forall|y: int| 0 <= y < r.len() - 1 implies (#[trigger] r[y]).1 == r[y + 1].0 by {
            assert(r[y + 1] == rest[y]);
            if y > 0 {
                assert(r[y] == rest[y - 1]);
            }
        }
        assert forall|y: int| 0 <= y < r.len() implies (#[trigger] r[y]).0 < r[y].1 && is_char_boundary(b, r[y].0) by {
            if y > 0 {
                assert(r[y] == rest[y - 1]);
            }
        }
    } else {
        lemma_runs_from(b, o, hs, start, x + 1);
    }
}

/// The runs of a span with text cut all of its bytes into contiguous,
/// non-empty pieces, each with a single highlight, neighbours differing in
/// highlight, and every cut on a character boundary.
pub proof fn lemma_runs_split_span(b: Seq<u8>, o: int, hs: Seq<HighlightRange>)
    requires
        b.len() > 0,
        valid_utf8(b),
    ensures
        is_run_split(b, o, hs, 0, class_runs(b, o, hs, 0, 1)),
{
    lemma_runs_from(b, o, hs, 0, 1);
}

/// A span seen as its UTF-8 bytes and its style.
pub open spec fn piece_view(s: StyledSpan) -> (Seq<u8>, Style) {
    (encode_utf8(s.content@), s.style)
}

/// The pieces of one span, with text `b` and `style`, that starts at byte `o`
/// of the line: one per maximal run of bytes with the same highlight; a span
/// without text stays as it is.
pub open spec fn span_pieces(b: Seq<u8>, style: Style, o: int, hs: Seq<HighlightRange>) -> Seq<
    (Seq<u8>, Style),
> {
    if b.len() == 0 {
        seq![(b, style)]
    } else {
        class_runs_pieces(b, style, o, hs)
    }
}

/// The pieces of a span with text: one per maximal run of bytes with the same highlight.
pub open spec fn class_runs_pieces(b: Seq<u8>, style: Style, o: int, hs: Seq<HighlightRange>) -> Seq<
    (Seq<u8>, Style),
> {
    class_runs(b, o, hs, 0, 1).map_values(
        |r: (int, int)| (b.subrange(r.0, r.1), class_style(style, byte_class(b, o, hs, r.0), hs)),
    )
}

/// The pieces of a line made of `spans`, the first of which starts at byte `o`.
pub open spec fn line_pieces(spans: Seq<SpanView>, o: int, hs: Seq<HighlightRange>) -> Seq<
    (Seq<u8>, Style),
>
    decreases spans.len(),
{
    if spans.len() == 0 {
        Seq::empty()
    } else {
        let b = encode_utf8(spans[0].content);
        span_pieces(b, spans[0].style, o, hs) + line_pieces(spans.drop_first(), o + b.len(), hs)
    }
}

/// The number of bytes of the text of `spans`.
pub open spec fn line_len(spans: Seq<SpanView>) -> int
    decreases spans.len(),
{
    if spans.len() == 0 {
        0
    } else {
        encode_utf8(spans[0].content).len() + line_len(spans.drop_first())
    }
}

/// A highlight index seen as an integer.
pub open spec fn as_class(c: Option<usize>) -> Option<int> {
    match c {
        Some(i) => Some(i as int),
        None => None,
    }
}

/// The index of the first range of `hs` that covers byte `k`.
fn first_cover(hs: &[HighlightRange], k: usize) -> (r: Option<usize>)
    ensures
        as_class(r) == cover_from(hs@, k as int, 0),
        r matches Some(i) ==> i < hs@.len(),
{
    let mut i: usize = 0;
    while i < hs.len()
        invariant
            i <= hs@.len(),
            cover_from(hs@, k as int, 0) == cover_from(hs@, k as int, i as int),
        decreases hs.len() - i,
    {
        if hs[i].start <= k && k < hs[i].end {
            return Some(i);
        }
        i = i + 1;
    }
    None
}

/// `style` with the background of the highlight `cls` of `hs`, if any.
fn styled_for(style: Style, cls: Option<usize>, hs: &[HighlightRange]) -> (r: Style)
    requires
        cls matches Some(i) ==> i < hs@.len(),
    ensures
        r == class_style(style, as_class(cls), hs@),
{
    match cls {
        None => style,
        Some(i) => if hs[i].is_current {
            style.bg(Color::Cyan)
        } else {
            style.bg(Color::DarkGray)
        },
    }
}

/// A character boundary of a valid text `b` past a boundary `a` is a
/// boundary of the rest of the text from `a` on.
proof fn lemma_boundary_of_rest(b: Seq<u8>, a: int, x: int)
    requires
        valid_utf8(b),
        0 <= a <= x <= b.len(),
        is_char_boundary(b, a),
        is_char_boundary(b, x),
    ensures
        valid_utf8(b.subrange(a, b.len() as int)),
        is_char_boundary(b.subrange(a, b.len() as int), x - a),
{
    valid_utf8_split(b, a);
    let rest = b.subrange(a, b.len() as int);
    if x == b.len() {
        is_char_boundary_start_end_of_seq(rest);
    } else if x > a {
        is_char_boundary_iff_not_is_continuation_byte(b, x);
        is_char_boundary_iff_not_is_continuation_byte(rest, x - a);
        assert(rest[x - a] == b[x]);
    }
}

/// Appends to `out` the pieces of `span`, whose text starts at byte `offset`
/// of the line.
fn overlay_span(
    span: &StyledSpan,
    offset: usize,
    hs: &[HighlightRange],
    out: &mut Vec<StyledSpan>,
)
    requires
        offset + encode_utf8(span.content@).len() <= usize::MAX,
    ensures
        final(out)@.map_values(|s: StyledSpan| piece_view(s)) == old(out)@.map_values(
            |s: StyledSpan| piece_view(s),
        ) + span_pieces(encode_utf8(span.content@), span.style, offset as int, hs@),
{
    let text = span.content.as_str();
    let ghost b = encode_utf8(span.content@);
    let ghost o = offset as int;
    let ghost base = old(out)@.map_values(|s: StyledSpan| piece_view(s));
    let m = text.len();
    if m == 0 {
        let ghost before = out@;
        out.push(StyledSpan { content: String::new(), style: span.style });
        proof {
            assert(b =~= Seq::<u8>::empty());
            assert(encode_utf8(out@.last().content@) == b);
            assert(out@.map_values(|s: StyledSpan| piece_view(s)) =~= before.map_values(
                |s: StyledSpan| piece_view(s),
            ).push(piece_view(out@.last())));
            assert(out@.map_values(|s: StyledSpan| piece_view(s)) =~= base + span_pieces(
                b,
                span.style,
                o,
                hs@,
            ));
        }
        return;
    }
    let mut rest: &str = text;
    let mut start: usize = 0;
    let mut run_cls = first_cover(hs, offset);
    let ghost mut done: Seq<(int, int)> = Seq::empty();
    let mut x: usize = 1;
    while x < m
        invariant
            o == offset as int,
            m == b.len(),
            b == text.spec_bytes(),
            valid_utf8(b),
            offset + m <= usize::MAX,
            0 <= start < x <= m,
            is_char_boundary(b, start as int),
            rest.spec_bytes() == b.subrange(start as int, m as int),
            forall|y: int|
                start <= y < x ==> byte_class(b, o, hs@, y) == byte_class(b, o, hs@, start as int),
            as_class(run_cls) == byte_class(b, o, hs@, start as int),
            run_cls matches Some(i) ==> i < hs@.len(),
            class_runs(b, o, hs@, 0, 1) == done + class_runs(b, o, hs@, start as int, x as int),
            out@.map_values(|s: StyledSpan| piece_view(s)) == base + done.map_values(
                |r: (int, int)|
                    (b.subrange(r.0, r.1), class_style(span.style, byte_class(b, o, hs@, r.0), hs@)),
            ),
        decreases m - x,
    {
        let boundary = text.is_char_boundary(x);
        let mut cls = run_cls;
        if boundary {
            let k = offset + x;
            cls = first_cover(hs, k);
            assert(byte_class(b, o, hs@, x as int) == cover_from(hs@, o + x, 0));

        } else {
            assert(byte_class(b, o, hs@, x as int) == byte_class(b, o, hs@, x - 1));
            assert(byte_class(b, o, hs@, x - 1) == byte_class(b, o, hs@, start as int));
        }
        proof {
            assert(as_class(cls) == byte_class(b, o, hs@, x as int));
            assert(cls != run_cls <==> as_class(cls) != as_class(run_cls));
        }
        if cls != run_cls {
            proof {
                lemma_boundary_of_rest(b, start as int, x as int);
                assert(class_runs(b, o, hs@, start as int, x as int) == seq![(start as int, x as int)]
                    + class_runs(b, o, hs@, x as int, x + 1));
            }
            let (piece, tail) = rest.split_at(x - start);
            let ghost before = out@;
            out.push(StyledSpan { content: piece.to_owned(), style: styled_for(span.style, run_cls, hs) });
            proof {
                assert(piece.spec_bytes() =~= b.subrange(start as int, x as int));
                assert(encode_utf8(piece@) == piece.spec_bytes());
                let d2 = done.push((start as int, x as int));
                assert(d2.map_values(
                    |r: (int, int)|
                        (b.subrange(r.0, r.1), class_style(span.style, byte_class(b, o, hs@, r.0), hs@)),
                ) =~= done.map_values(
                    |r: (int, int)|
                        (b.subrange(r.0, r.1), class_style(span.style, byte_class(b, o, hs@, r.0), hs@)),
                ).push((b.subrange(start as int, x as int), class_style(span.style, byte_class(b, o, hs@, start as int), hs@))));
                assert(out@.map_values(|s: StyledSpan| piece_view(s)) =~= before.map_values(|s: StyledSpan| piece_view(s)).push(piece_view(out@.last())));
                assert(d2 + class_runs(b, o, hs@, x as int, x + 1) =~= done + (seq![(start as int, x as int)]
                    + class_runs(b, o, hs@, x as int, x + 1)));
                done = d2;
                assert(tail.spec_bytes() =~= b.subrange(x as int, m as int));
            }
            rest = tail;
            start = x;
            run_cls = cls;
        } else {
            proof {
                assert(class_runs(b, o, hs@, start as int, x as int) == class_runs(b, o, hs@, start as int, x + 1));
            }
        }
        x = x + 1;
    }
    let ghost before = out@;
    out.push(StyledSpan { content: rest.to_owned(), style: styled_for(span.style, run_cls, hs) });
    proof {
        assert(class_runs(b, o, hs@, start as int, x as int) == seq![(start as int, m as int)]);
        assert(encode_utf8(rest@) == rest.spec_bytes());
        let d2 = done.push((start as int, m as int));
        assert(d2 =~= done + seq![(start as int, m as int)]);
        assert(d2.map_values(
            |r: (int, int)|
                (b.subrange(r.0, r.1), class_style(span.style, byte_class(b, o, hs@, r.0), hs@)),
        ) =~= done.map_values(
            |r: (int, int)|
                (b.subrange(r.0, r.1), class_style(span.style, byte_class(b, o, hs@, r.0), hs@)),
        ).push((b.subrange(start as int, m as int), class_style(span.style, byte_class(b, o, hs@, start as int), hs@))));
        assert(out@.map_values(|s: StyledSpan| piece_view(s)) =~= before.map_values(|s: StyledSpan| piece_view(s)).push(piece_view(out@.last())));
        assert(out@.map_values(|s: StyledSpan| piece_view(s)) =~= base + span_pieces(b, span.style, o, hs@));
    }
}

/// Splits each of `spans` at the highlight boundaries that fall inside it and
/// gives each piece the background of the highlight that covers it, keeping
/// the span's own colors and attributes otherwise. A piece is a maximal run of
/// bytes of one span covered by the same highlight (the first range, in order,
/// that covers the first byte of its character), so no cut falls inside a
/// character; the pieces, in order, hold the text of the line, and a span
/// without text stays as it is. Without highlights the spans come back
/// unchanged.
pub fn overlay_highlights(spans: Vec<StyledSpan>, highlights: &[HighlightRange]) -> (r: Vec<
    StyledSpan,
>)
    requires
        line_len(spans_view(spans@)) <= usize::MAX,
    ensures
        r@.map_values(|s: StyledSpan| piece_view(s)) == line_pieces(
            spans_view(spans@),
            0,
            highlights@,
        ),
        highlights@.len() == 0 ==> r@ == spans@,
{
    if highlights.len() == 0 {
        proof {
            assert(highlights@ =~= Seq::<HighlightRange>::empty());
            lemma_pieces_without_highlights(spans@, 0);
        }
        return spans;
    }
    let ghost sv = spans_view(spans@);
    let mut out: Vec<StyledSpan> = Vec::new();
    let mut offset: usize = 0;
    let mut i: usize = 0;
    let n = spans.len();
    proof {
        assert(sv.subrange(0, n as int) =~= sv);
        assert(out@.map_values(|s: StyledSpan| piece_view(s)) =~= Seq::empty());
    }
    while i < n
        invariant
            n == spans@.len(),
            sv == spans_view(spans@),
            i <= n,
            offset + line_len(sv.subrange(i as int, n as int)) == line_len(sv),
            line_len(sv) <= usize::MAX,
            line_pieces(sv, 0, highlights@) == out@.map_values(|s: StyledSpan| piece_view(s))
                + line_pieces(sv.subrange(i as int, n as int), offset as int, highlights@),
        decreases n - i,
    {
        let span = &spans[i];
        let ghost tail = sv.subrange(i as int, n as int);
        proof {
            assert(tail[0] == span@);
            assert(tail.drop_first() =~= sv.subrange(i + 1, n as int));
            lemma_line_len_nonneg(tail.drop_first());
            assert(line_len(tail) == encode_utf8(span.content@).len() + line_len(tail.drop_first()));
        }
        let len = span.content.as_str().len();
        overlay_span(span, offset, highlights, &mut out);
        offset = offset + len;
        i = i + 1;
    }
    proof {
        assert(sv.subrange(n as int, n as int) =~= Seq::<SpanView>::empty());
        assert(out@.map_values(|s: StyledSpan| piece_view(s)) =~= out@.map_values(
            |s: StyledSpan| piece_view(s),
        ) + Seq::empty());
    }
    out
}

/// Without highlights a span with text is one run.
proof fn lemma_runs_without_highlights(b: Seq<u8>, o: int, x: int)
    requires
        1 <= x <= b.len(),
    ensures
        class_runs(b, o, Seq::empty(), 0, x) == seq![(0int, b.len() as int)],
    decreases b.len() - x,
{
    let hs = Seq::<HighlightRange>::empty();
    if x < b.len() {
        assert(byte_class(b, o, hs, x) == byte_class(b, o, hs, 0)) by {
            lemma_no_class(b, o, x);
            lemma_no_class(b, o, 0);
        }
        lemma_runs_without_highlights(b, o, x + 1);
    }
}

proof fn lemma_no_class(b: Seq<u8>, o: int, x: int)
    ensures
        byte_class(b, o, Seq::empty(), x) is None,
    decreases x,
{
    if !(x <= 0 || is_char_boundary(b, x)) {
        lemma_no_class(b, o, x - 1);
    }
}

/// Without highlights, the pieces of a line are its spans.
proof fn lemma_pieces_without_highlights(spans: Seq<StyledSpan>, o: int)
    ensures
        line_pieces(spans_view(spans), o, Seq::empty()) == spans.map_values(
            |s: StyledSpan| piece_view(s),
        ),
    decreases spans.len(),
{
    let sv = spans_view(spans);
    if spans.len() > 0 {
        let b = encode_utf8(spans[0].content@);
        assert(sv[0] == spans[0]@);
        assert(sv.drop_first() =~= spans_view(spans.drop_first()));
        lemma_pieces_without_highlights(spans.drop_first(), o + b.len());
        if b.len() > 0 {
            lemma_runs_without_highlights(b, o, 1);
            lemma_no_class(b, o, 0);
            assert(b.subrange(0, b.len() as int) =~= b);
            assert(span_pieces(b, spans[0].style, o, Seq::empty()) =~= seq![piece_view(spans[0])]);
        }
        assert(spans.map_values(|s: StyledSpan| piece_view(s)) =~= seq![piece_view(spans[0])]
            + spans.drop_first().map_values(|s: StyledSpan| piece_view(s)));
    } else {
        assert(spans.map_values(|s: StyledSpan| piece_view(s)) =~= Seq::empty());
    }
}

proof fn lemma_line_len_nonneg(spans: Seq<SpanView>)
    ensures
        line_len(spans) >= 0,
    decreases spans.len(),
{
    if spans.len() > 0 {
        lemma_line_len_nonneg(spans.drop_first());
    }
}

/// `a + b`, or `usize::MAX` where that overflows.
pub open spec fn saturating_sum(a: usize, b: usize) -> usize {
    if a + b <= usize::MAX {
        (a + b) as usize
    } else {
        usize::MAX
    }
}

/// The ranges to highlight in line `line`: one for each match on that line, in
/// order; the one of the match with index `current`, if any, is marked current.
pub open spec fn line_highlights(ms: Seq<Match>, current: Option<usize>, line: usize) -> Seq<
    HighlightRange,
>
    decreases ms.len(),
{
    if ms.len() == 0 {
        Seq::empty()
    } else {
        let rest = line_highlights(ms.drop_last(), current, line);
        let m = ms.last();
        if m.line == line {
            rest.push(
                HighlightRange {
                    start: m.start,
                    end: saturating_sum(m.start, m.len),
                    is_current: current == Some((ms.len() - 1) as usize),
                },
            )
        } else {
            rest
        }
    }
}

/// The ranges to highlight in line `line` for `matches`, where the current
/// match, if any, is the one with index `current`.
pub fn highlight_ranges(matches: &[Match], current: Option<usize>, line: usize) -> (r: Vec<
    HighlightRange,
>)
    ensures
        r@ == line_highlights(matches@, current, line),
{
    let mut r: Vec<HighlightRange> = Vec::new();
    let mut i: usize = 0;
    while i < matches.len()
        invariant
            i <= matches@.len(),
            r@ == line_highlights(matches@.subrange(0, i as int), current, line),
        decreases matches.len() - i,
    {
        let m = matches[i];
        proof {
            assert(matches@.subrange(0, i + 1).drop_last() =~= matches@.subrange(0, i as int));
        }
        if m.line == line {
            let end = if m.len <= usize::MAX - m.start {
                m.start + m.len
            } else {
                usize::MAX
            };
            let is_current = match current {
                Some(c) => c == i,
                None => false,
            };
            r.push(HighlightRange { start: m.start, end, is_current });
        }
        i = i + 1;
    }
    assert(matches@.subrange(0, matches@.len() as int) =~= matches@);
    r
}

} // verus!
