//! Output lines of a command and the bounded buffer that keeps them.

use crate::styled::{
    ansi_lines_of, decode_ansi, decoded_view, is_plain_style, spans_text, spans_view, SpanView,
    StyledSpan,
};
use std::collections::VecDeque;
use vstd::prelude::*;
use vstd::std_specs::iter::IteratorSpec;
use vstd::string::StringExecFns;

verus! {

broadcast use vstd::std_specs::vecdeque::group_vec_dequeue_axioms;

/// The stream a line came from.
#[derive(Clone, Copy, Debug, PartialEq, Eq, Structural)]
pub enum OutputKind {
    Stdout,
    Stderr,
}

/// The spans that decoding `content` yields for a line: the first decoded
/// line (none when there is none), or nothing when decoding fails.
pub open spec fn decoded_first_line(content: Seq<char>) -> Option<Seq<SpanView>> {
    match ansi_lines_of(content) {
        Some(lines) => Some(if lines.len() > 0 { lines[0] } else { Seq::empty() }),
        None => None,
    }
}

/// One line of output, decoded into styled spans.
#[derive(Clone, Debug)]
pub struct OutputLine {
    pub kind: OutputKind,
    pub spans: Vec<StyledSpan>,
}

impl OutputLine {
    /// The spans of the line.
    pub open spec fn spans_view(&self) -> Seq<SpanView> {
        spans_view(self.spans@)
    }

    /// The text of the line without its styling.
    pub open spec fn plain_view(&self) -> Seq<char> {
        spans_text(self.spans_view())
    }

    /// Decodes the escape sequences of `content` into styled spans. Where the
    /// decoder fails, the line is one unstyled span holding `content` as it is.
    pub fn new(kind: OutputKind, content: String) -> (r: OutputLine)
        ensures
            r.kind == kind,
            decoded_first_line(content@) matches Some(spans) ==> r.spans_view() == spans,
            decoded_first_line(content@) is None ==> {
                &&& r.spans_view().len() == 1
                &&& r.spans_view()[0].content == content@
                &&& is_plain_style(r.spans_view()[0].style)
            },
    {
        let decoded = decode_ansi(content.as_str());
        OutputLine::from_decoded(kind, content, decoded)
    }

    /// The line of `kind` for `content`, given what decoding `content` gave:
    /// the first decoded line (no span when there is none), or, when decoding
    /// failed, one unstyled span holding `content` as it is.
    pub fn from_decoded(
        kind: OutputKind,
        content: String,
        decoded: Option<Vec<Vec<StyledSpan>>>,
    ) -> (r: OutputLine)
        ensures
            r.kind == kind,
            decoded_view(decoded) matches Some(lines) ==> r.spans_view() == (if lines.len() > 0 {
                lines[0]
            } else {
                Seq::empty()
            }),
            decoded is None ==> {
                &&& r.spans_view().len() == 1
                &&& r.spans_view()[0].content == content@
                &&& is_plain_style(r.spans_view()[0].style)
            },
    {
        let spans = match decoded {
            Some(lines) => {
                let mut lines = lines;
                if lines.len() > 0 {
                    lines.remove(0)
                } else {
                    Vec::new()
                }
            },
            None => {
                let mut v = Vec::new();
                v.push(StyledSpan::raw(content));
                v
            },
        };
        let r = OutputLine { kind, spans };
        proof {
            if decoded is None {
                assert(r.spans_view()[0] == r.spans@[0]@);
            }
        }
        r
    }

    /// The styled spans of the line, for drawing.
    pub fn spans(&self) -> (r: &[StyledSpan])
        ensures
            spans_view(r@) == self.spans_view(),
    {
        self.spans.as_slice()
    }

    /// The text of the line without escape sequences: its spans' text in order.
    pub fn plain(&self) -> (r: String)
        ensures
            r@ == self.plain_view(),
    {
        let mut r = String::new();
        let mut i: usize = 0;
        while i < self.spans.len()
            invariant
                i <= self.spans.len(),
                r@ == spans_text(spans_view(self.spans@.subrange(0, i as int))),
            decreases self.spans.len() - i,
        {
            proof {
                let s = spans_view(self.spans@.subrange(0, i as int + 1));
                assert(s.drop_last() =~= spans_view(self.spans@.subrange(0, i as int)));
            }
            r.append(self.spans[i].content.as_str());
            i = i + 1;
        }
        assert(self.spans@.subrange(0, self.spans.len() as int) =~= self.spans@);
        r
    }
}

/// The lines kept after appending `line` to `lines` in a buffer that holds at
/// most `max` lines (no bound when `max` is zero): the most recent ones.
pub open spec fn pushed(lines: Seq<OutputLine>, line: OutputLine, max: nat) -> Seq<OutputLine> {
    let all = lines.push(line);
    if max > 0 && all.len() > max {
        all.subrange(all.len() - max, all.len() as int)
    } else {
        all
    }
}

/// The lines kept after appending each of `xs`, in order, to `lines`.
pub open spec fn pushed_all(lines: Seq<OutputLine>, xs: Seq<OutputLine>, max: nat) -> Seq<
    OutputLine,
>
    decreases xs.len(),
{
    if xs.len() == 0 {
        lines
    } else {
        pushed(pushed_all(lines, xs.drop_last(), max), xs.last(), max)
    }
}

/// The last `max` elements of `s`, or all of them when there are fewer.
pub open spec fn most_recent(s: Seq<OutputLine>, max: nat) -> Seq<OutputLine> {
    if s.len() > max {
        s.subrange(s.len() - max, s.len() as int)
    } else {
        s
    }
}

/// However many lines are pushed into a buffer bounded by `max > 0`, it holds
/// exactly the most recent `max` lines it was given, oldest first; once it has
/// been given `max` lines or more, it holds `max` of them.
pub proof fn lemma_bounded_keeps_most_recent(
    lines: Seq<OutputLine>,
    xs: Seq<OutputLine>,
    max: nat,
)
    requires
        max > 0,
        lines.len() <= max,
    ensures
        pushed_all(lines, xs, max) == most_recent(lines + xs, max),
        lines.len() + xs.len() >= max ==> pushed_all(lines, xs, max).len() == max,
    decreases xs.len(),
{
    if xs.len() == 0 {
        assert(lines + xs =~= lines);
    } else {
        lemma_bounded_keeps_most_recent(lines, xs.drop_last(), max);
        let prev = lines + xs.drop_last();
        assert(lines + xs =~= prev.push(xs.last()));
        assert(pushed_all(lines, xs, max) =~= most_recent(lines + xs, max));
    }
}

/// A buffer without bound (`max == 0`) keeps every line pushed into it.
pub proof fn lemma_unbounded_keeps_all(lines: Seq<OutputLine>, xs: Seq<OutputLine>)
    ensures
        pushed_all(lines, xs, 0) == lines + xs,
        pushed_all(lines, xs, 0).len() == lines.len() + xs.len(),
    decreases xs.len(),
{
    if xs.len() == 0 {
        assert(lines + xs =~= lines);
    } else {
        lemma_unbounded_keeps_all(lines, xs.drop_last());
        assert(lines + xs =~= (lines + xs.drop_last()).push(xs.last()));
    }
}

/// A bounded buffer of output lines that drops the oldest line on overflow.
pub struct OutputBuffer {
    lines: VecDeque<OutputLine>,
    max_lines: usize,
}

impl OutputBuffer {
    /// The lines held, oldest first.
    pub closed spec fn lines_view(&self) -> Seq<OutputLine> {
        self.lines@
    }

    /// The most lines the buffer holds; zero for no bound.
    pub closed spec fn max_view(&self) -> nat {
        self.max_lines as nat
    }

    /// The buffer never holds more lines than its bound.
    pub open spec fn wf(&self) -> bool {
        self.max_view() > 0 ==> self.lines_view().len() <= self.max_view()
    }

    /// An empty buffer holding at most `max_lines` lines (0 for no bound).
    pub fn new(max_lines: usize) -> (r: OutputBuffer)
        ensures
            r.wf(),
            r.lines_view() == Seq::<OutputLine>::empty(),
            r.max_view() == max_lines,
    {
        OutputBuffer { lines: VecDeque::new(), max_lines }
    }

    /// Appends `line`, first dropping the oldest line when the buffer is full.
    pub fn push(&mut self, line: OutputLine)
        requires
            old(self).wf(),
            old(self).max_view() == 0 ==> old(self).lines_view().len() < usize::MAX,
        ensures
            final(self).wf(),
            final(self).max_view() == old(self).max_view(),
            final(self).lines_view() == pushed(old(self).lines_view(), line, old(self).max_view()),
            old(self).max_view() == 0 ==> final(self).lines_view() == old(self).lines_view().push(
                line,
            ),
    {
        let ghost before = self.lines@;
        if self.max_lines > 0 && self.lines.len() >= self.max_lines {
            self.lines.pop_front();
        }
        self.lines.push_back(line);
        assert(self.lines@ =~= pushed(before, line, self.max_lines as nat));
    }

    /// The lines from `start` on, at most `count` of them; fewer, or none,
    /// where the range runs past the end.
    pub fn get_range(&self, start: usize, count: usize) -> (r: Vec<&OutputLine>)
        ensures
            r@.len() == (if start >= self.lines_view().len() {
                0
            } else {
                vstd::math::min(count as int, self.lines_view().len() - start)
            }),
            forall|i: int| 0 <= i < r@.len() ==> *r@[i] == self.lines_view()[start + i],
    {
        let mut r: Vec<&OutputLine> = Vec::new();
        if start >= self.lines.len() {
            return r;
        }
        let end: usize = if count <= self.lines.len() - start {
            start + count
        } else {
            self.lines.len()
        };
        let mut i: usize = start;
        while i < end
            invariant
                start <= i <= end <= self.lines@.len(),
                r@.len() == i - start,
                forall|j: int| 0 <= j < r@.len() ==> *r@[j] == self.lines@[start + j],
            decreases end - i,
        {
            r.push(&self.lines[i]);
            i = i + 1;
        }
        r
    }

    /// The line at `index`, oldest first, if there is one.
    pub fn get(&self, index: usize) -> (r: Option<&OutputLine>)
        ensures
            index < self.lines_view().len() ==> r == Some(&self.lines_view()[index as int]),
            index >= self.lines_view().len() ==> r is None,
    {
        if index < self.lines.len() {
            Some(&self.lines[index])
        } else {
            None
        }
    }

    /// The most lines the buffer holds; zero for no bound.
    pub fn max_lines(&self) -> (r: usize)
        ensures
            r == self.max_view(),
    {
        self.max_lines
    }

    /// The number of lines held.
    pub fn len(&self) -> (r: usize)
        ensures
            r == self.lines_view().len(),
    {
        self.lines.len()
    }

    /// Whether the buffer holds no line.
    pub fn is_empty(&self) -> (r: bool)
        ensures
            r == (self.lines_view().len() == 0),
    {
        self.lines.len() == 0
    }

    /// Drops every line; the bound stays.
    pub fn clear(&mut self)
        ensures
            final(self).wf(),
            final(self).lines_view() == Seq::<OutputLine>::empty(),
            final(self).max_view() == old(self).max_view(),
    {
        self.lines.clear();
    }

    /// The lines, oldest first, for a full scan.
    pub fn iter(&self) -> (r: std::collections::vec_deque::Iter<'_, OutputLine>)
        ensures
            r.remaining() == self.lines_view().as_ref(),
    {
        self.lines.iter()
    }
}

} // verus!
