//! Smartcase text search over an output buffer, with cyclic navigation
//! through the matches.

use crate::buffer::{OutputBuffer, OutputLine};
use crate::text::{
    char_offsets, char_range, contains_uppercase, has_uppercase, lemma_encode_concat,
    lemma_encode_len, lemma_prefix_boundary, lower_of, lowercase,
};
use tui_input::{Input, InputRequest, InputResponse, StateChanged};
use vstd::prelude::*;
use vstd::string::StrSliceExecFns;
use vstd::utf8::{encode_utf8, is_char_boundary};

verus! {

/// tui_input's line editor, which holds the query text and a cursor.
#[verifier::external_type_specification]
#[verifier::external_body]
pub struct ExInput(Input);

/// tui_input's editing requests (insert a character, delete a word, ...): a
/// plain enum, whose variants Verus reads.
#[verifier::external_type_specification]
pub struct ExInputRequest(InputRequest);

/// tui_input's report of what an editing request changed.
#[verifier::external_type_specification]
#[verifier::external_body]
pub struct ExStateChanged(StateChanged);

/// The text that a line editor holds.
pub uninterp spec fn input_text(i: Input) -> Seq<char>;

/// The cursor of a line editor, counted in characters.
pub uninterp spec fn input_cursor(i: Input) -> nat;

/// The text that an editing request makes of `text` with the cursor at `cursor`.
pub uninterp spec fn edited_text(text: Seq<char>, cursor: nat, req: InputRequest) -> Seq<char>;

/// Relies on tui_input's `Input::new`: the editor holds `value`, with the
/// cursor after its last character.
pub assume_specification[ Input::new ](value: String) -> (r: Input)
    ensures
        input_text(r) == value@,
        input_cursor(r) == value@.len(),
;

/// Relies on tui_input's `Input::value`: the text the editor holds.
pub assume_specification[ Input::value ](i: &Input) -> (r: &str)
    ensures
        r@ == input_text(*i),
;

/// Relies on tui_input's `Input::reset`: the editor then holds no text, with
/// the cursor at the start.
pub assume_specification[ Input::reset ](i: &mut Input)
    ensures
        input_text(*final(i)) == Seq::<char>::empty(),
        input_cursor(*final(i)) == 0,
;

/// Relies on tui_input's `Input::handle`: applies one editing request; the
/// new text depends on the old text, the cursor and the request alone.
pub assume_specification[ Input::handle ](i: &mut Input, req: InputRequest) -> (r: InputResponse)
    ensures
        input_text(*final(i)) == edited_text(input_text(*old(i)), input_cursor(*old(i)), req),
;

/// One occurrence of the query: a line of the buffer, and a byte range in the
/// text of that line.
#[derive(Clone, Copy, Debug, PartialEq, Eq, Structural)]
pub struct Match {
    /// Line number (0-based)
    pub line: usize,
    /// Start of the match within the line (byte offset)
    pub start: usize,
    /// Length of the match (bytes)
    pub len: usize,
}

/// Matching is case-sensitive exactly when the query holds an uppercase character.
pub open spec fn is_case_sensitive(query: Seq<char>) -> bool {
    has_uppercase(query)
}

/// The text that is compared for a piece of a line or for the query: as it
/// is when the search is case-sensitive, lowercased otherwise.
pub open spec fn search_text(text: Seq<char>, sensitive: bool) -> Seq<char> {
    if sensitive {
        text
    } else {
        lower_of(text)
    }
}

/// A piece of a line matches the query: equal to it, or, when the search is
/// not case-sensitive, equal to it once both are lowercased.
pub open spec fn piece_matches(piece: Seq<char>, query: Seq<char>, sensitive: bool) -> bool {
    search_text(piece, sensitive) == search_text(query, sensitive)
}

/// The match of the characters `i` to `i + k` of line `line`, whose text is
/// `t`, as a byte range of the UTF-8 text of the line.
pub open spec fn match_at(line: int, t: Seq<char>, i: int, k: int) -> Match {
    let start = encode_utf8(t.subrange(0, i)).len();
    Match {
        line: line as usize,
        start: start as usize,
        len: (encode_utf8(t.subrange(0, i + k)).len() - start) as usize,
    }
}

/// The matches of `query` in line `line`, whose text is `t`, found by a scan
/// from character `from` on: a piece of as many characters as the query that
/// matches it is a match, and the scan goes on after it; otherwise the scan
/// moves on by one character. An empty query matches nowhere.
pub open spec fn scan_matches(line: int, t: Seq<char>, query: Seq<char>, sensitive: bool, from: int) -> Seq<
    Match,
>
    decreases t.len() - from,
{
    if query.len() == 0 || from < 0 || from + query.len() > t.len() {
        Seq::empty()
    } else if piece_matches(t.subrange(from, from + query.len()), query, sensitive) {
        seq![match_at(line, t, from, query.len() as int)] + scan_matches(
            line,
            t,
            query,
            sensitive,
            from + query.len(),
        )
    } else {
        scan_matches(line, t, query, sensitive, from + 1)
    }
}

/// The matches of `query` in `lines`, line by line and left to right within a line.
pub open spec fn lines_matches(lines: Seq<Seq<char>>, query: Seq<char>) -> Seq<Match>
    decreases lines.len(),
{
    if lines.len() == 0 {
        Seq::empty()
    } else {
        lines_matches(lines.drop_last(), query) + scan_matches(
            lines.len() - 1,
            lines.last(),
            query,
            is_case_sensitive(query),
            0,
        )
    }
}

/// The text of each line of a buffer.
pub open spec fn plain_lines(lines: Seq<OutputLine>) -> Seq<Seq<char>> {
    lines.map_values(|l: OutputLine| l.plain_view())
}

/// What a search for `query` finds: nothing for an empty query.
pub open spec fn search_result(lines: Seq<OutputLine>, query: Seq<char>) -> Seq<Match> {
    if query.len() == 0 {
        Seq::empty()
    } else {
        lines_matches(plain_lines(lines), query)
    }
}

/// `m` is the match of a piece of `t` that matches `query`.
pub open spec fn match_in_text(m: Match, t: Seq<char>, query: Seq<char>, sensitive: bool) -> bool {
    exists|i: int|
        0 <= i && i + query.len() <= t.len() && query.len() > 0 && m == #[trigger] match_at(
            m.line as int,
            t,
            i,
            query.len() as int,
        ) && piece_matches(t.subrange(i, i + query.len()), query, sensitive)
}

proof fn lemma_scan_in_text(line: int, t: Seq<char>, query: Seq<char>, sensitive: bool, from: int)
    ensures
        forall|x: int|
            0 <= x < scan_matches(line, t, query, sensitive, from).len() ==> {
                let m = #[trigger] scan_matches(line, t, query, sensitive, from)[x];
                m.line == line as usize && match_in_text(m, t, query, sensitive)
            },
    decreases t.len() - from,
{
    let sc = scan_matches(line, t, query, sensitive, from);
    if query.len() == 0 || from < 0 || from + query.len() > t.len() {
    } else if piece_matches(t.subrange(from, from + query.len()), query, sensitive) {
        lemma_scan_in_text(line, t, query, sensitive, from + query.len());
        let rest = scan_matches(line, t, query, sensitive, from + query.len());
        assert(sc == seq![match_at(line, t, from, query.len() as int)] + rest);
        assert forall|x: int| 0 <= x < sc.len() implies {
            let m = #[trigger] sc[x];
            m.line == line as usize && match_in_text(m, t, query, sensitive)
        } by {
            if x == 0 {
                let m = sc[0];
                assert(m.line as int == (line as usize) as int);
                assert(m == match_at(m.line as int, t, from, query.len() as int));
            } else {
                assert(sc[x] == rest[x - 1]);
            }
        }
    } else {
        lemma_scan_in_text(line, t, query, sensitive, from + 1);
        assert(sc == scan_matches(line, t, query, sensitive, from + 1));
    }
}

proof fn lemma_lines_in_text(lines: Seq<Seq<char>>, query: Seq<char>)
    requires
        lines.len() <= usize::MAX,
    ensures
        forall|x: int|
            0 <= x < lines_matches(lines, query).len() ==> {
                let m = #[trigger] lines_matches(lines, query)[x];
                m.line < lines.len() && match_in_text(
                    m,
                    lines[m.line as int],
                    query,
                    is_case_sensitive(query),
                )
            },
    decreases lines.len(),
{
    if lines.len() > 0 {
        let front = lines.drop_last();
        lemma_lines_in_text(front, query);
        let n = lines.len() - 1;
        lemma_scan_in_text(n, lines.last(), query, is_case_sensitive(query), 0);
        let a = lines_matches(front, query);
        let b = scan_matches(n, lines.last(), query, is_case_sensitive(query), 0);
        assert(lines_matches(lines, query) == a + b);
        assert forall|x: int| 0 <= x < lines_matches(lines, query).len() implies {
            let m = #[trigger] lines_matches(lines, query)[x];
            m.line < lines.len() && match_in_text(m, lines[m.line as int], query, is_case_sensitive(query))
        } by {
            if x < a.len() {
                assert(lines_matches(lines, query)[x] == a[x]);
                assert(front[a[x].line as int] == lines[a[x].line as int]);
            } else {
                assert(lines_matches(lines, query)[x] == b[x - a.len()]);
            }
        }
    }
}

/// A match of a piece of `t` is a non-empty byte range of the UTF-8 text of
/// `t` that starts and ends on character boundaries and holds the piece.
proof fn lemma_match_bytes(m: Match, t: Seq<char>, query: Seq<char>, sensitive: bool)
    requires
        match_in_text(m, t, query, sensitive),
        encode_utf8(t).len() <= usize::MAX,
    ensures
        m.len > 0,
        m.start + m.len <= encode_utf8(t).len(),
        is_char_boundary(encode_utf8(t), m.start as int),
        is_char_boundary(encode_utf8(t), m.start + m.len),
        exists|piece: Seq<char>|
            piece.len() == query.len() && encode_utf8(t).subrange(m.start as int, m.start + m.len)
                == encode_utf8(piece) && #[trigger] piece_matches(piece, query, sensitive),
{
    let k = query.len() as int;
    let i = choose|i: int|
        0 <= i && i + query.len() <= t.len() && query.len() > 0 && m == #[trigger] match_at(
            m.line as int,
            t,
            i,
            query.len() as int,
        ) && piece_matches(t.subrange(i, i + query.len()), query, sensitive);
    let a = t.subrange(0, i);
    let piece = t.subrange(i, i + k);
    let ak = t.subrange(0, i + k);
    assert(ak =~= a + piece);
    lemma_encode_concat(a, piece);
    lemma_encode_len(piece);
    lemma_prefix_boundary(t, i);
    lemma_prefix_boundary(t, i + k);
    assert(t.subrange(0, i + k) == ak);
    let ea = encode_utf8(a);
    let ep = encode_utf8(piece);
    assert(encode_utf8(t) == encode_utf8(ak) + encode_utf8(t.subrange(i + k, t.len() as int)));
    assert(encode_utf8(t).subrange(ea.len() as int, ea.len() + ep.len() as int) =~= ep);
    assert(m.start == ea.len());
    assert(m.len == ep.len());
}

/// Every match of a search lies in the text of its line: it is not empty, it
/// starts and ends on character boundaries of the line's UTF-8 text, and the
/// bytes it covers are the text of a piece of the line, as many characters
/// long as the query, that matches it: the query itself when the query holds
/// an uppercase character, and otherwise a piece that lowercases to what the
/// query lowercases to.
pub proof fn lemma_search_matches_in_plain_text(lines: Seq<OutputLine>, query: Seq<char>, x: int)
    requires
        lines.len() <= usize::MAX,
        forall|l: int| 0 <= l < lines.len() ==> encode_utf8(#[trigger] lines[l].plain_view()).len() <= usize::MAX,
        0 <= x < search_result(lines, query).len(),
    ensures
        ({
            let m = search_result(lines, query)[x];
            let b = encode_utf8(lines[m.line as int].plain_view());
            &&& m.line < lines.len()
            &&& m.len > 0
            &&& m.start + m.len <= b.len()
            &&& is_char_boundary(b, m.start as int)
            &&& is_char_boundary(b, m.start + m.len)
            &&& exists|piece: Seq<char>|
                piece.len() == query.len() && b.subrange(m.start as int, m.start + m.len)
                    == encode_utf8(piece) && #[trigger] piece_matches(
                    piece,
                    query,
                    is_case_sensitive(query),
                )
        }),
{
    let pl = plain_lines(lines);
    lemma_lines_in_text(pl, query);
    let m = search_result(lines, query)[x];
    assert(pl[m.line as int] == lines[m.line as int].plain_view());
    lemma_match_bytes(m, pl[m.line as int], query, is_case_sensitive(query));
}

/// The characters at which the scan of `scan_matches` reports a match.
pub open spec fn scan_starts(t: Seq<char>, query: Seq<char>, sensitive: bool, from: int) -> Seq<int>
    decreases t.len() - from,
{
    if query.len() == 0 || from < 0 || from + query.len() > t.len() {
        Seq::empty()
    } else if piece_matches(t.subrange(from, from + query.len()), query, sensitive) {
        seq![from] + scan_starts(t, query, sensitive, from + query.len())
    } else {
        scan_starts(t, query, sensitive, from + 1)
    }
}

/// `i` starts a piece of `t` that matches the query.
pub open spec fn matches_at(t: Seq<char>, query: Seq<char>, sensitive: bool, i: int) -> bool {
    0 <= i && i + query.len() <= t.len() && piece_matches(t.subrange(i, i + query.len()), query, sensitive)
}

/// The scan is greedy, non-overlapping and complete. Its matches are those
/// of the pieces starting at `scan_starts`, in that order. The first start
/// is the first matching piece at or after `from`. Each later start is the
/// first matching piece at or after the end of the previous match. No
/// matching piece starts at or after the end of the last match.
pub proof fn lemma_scan_is_greedy(line: int, t: Seq<char>, query: Seq<char>, sensitive: bool, from: int)
    requires
        0 <= from,
        query.len() > 0,
    ensures
        ({
            let st = scan_starts(t, query, sensitive, from);
            let k = query.len() as int;
            &&& scan_matches(line, t, query, sensitive, from) == st.map_values(
                |c: int| match_at(line, t, c, k),
            )
            &&& forall|x: int| 0 <= x < st.len() ==> matches_at(t, query, sensitive, #[trigger] st[x])
            &&& forall|x: int| 0 <= x < st.len() ==> from <= #[trigger] st[x]
            &&& forall|x: int| 0 < x < st.len() ==> st[x - 1] + k <= #[trigger] st[x]
            &&& forall|i: int|
                from <= i && (st.len() > 0 ==> i < st[0]) ==> !#[trigger] matches_at(
                    t,
                    query,
                    sensitive,
                    i,
                )
            &&& forall|x: int, i: int|
                #![trigger st[x], matches_at(t, query, sensitive, i)]
                0 < x < st.len() && st[x - 1] + k <= i < st[x] ==> !matches_at(t, query, sensitive, i)
            &&& forall|i: int|
                st.len() > 0 && st.last() + k <= i ==> !#[trigger] matches_at(t, query, sensitive, i)
        }),
    decreases t.len() - from,
{
    let st = scan_starts(t, query, sensitive, from);
    let k = query.len() as int;
    let sm = scan_matches(line, t, query, sensitive, from);
    if from + k > t.len() {
        assert(sm =~= st.map_values(|c: int| match_at(line, t, c, k)));
    } else if piece_matches(t.subrange(from, from + k), query, sensitive) {
        lemma_scan_is_greedy(line, t, query, sensitive, from + k);
        let rest = scan_starts(t, query, sensitive, from + k);
        assert(st == seq![from] + rest);
        assert(sm =~= st.map_values(|c: int| match_at(line, t, c, k)));
        assert forall|x: int| 0 <= x < st.len() implies matches_at(t, query, sensitive, #[trigger] st[x]) && from <= st[x] by {
            if x > 0 {
                assert(st[x] == rest[x - 1]);
            }
        }
        assert forall|x: int| 0 < x < st.len() implies st[x - 1] + k <= #[trigger] st[x] by {
            assert(st[x] == rest[x - 1]);
            if x > 1 {
                assert(st[x - 1] == rest[x - 2]);
            }
        }
        assert forall|x: int, i: int|
            #![trigger st[x], matches_at(t, query, sensitive, i)]
            0 < x < st.len() && st[x - 1] + k <= i < st[x] implies !matches_at(t, query, sensitive, i) by {
            assert(st[x] == rest[x - 1]);
            if x > 1 {
                assert(st[x - 1] == rest[x - 2]);
            }
        }
        assert forall|i: int| st.len() > 0 && st.last() + k <= i implies !#[trigger] matches_at(t, query, sensitive, i) by {
            if rest.len() > 0 {
                assert(st.last() == rest.last());
            }
        }
    } else {
        lemma_scan_is_greedy(line, t, query, sensitive, from + 1);
        assert(st == scan_starts(t, query, sensitive, from + 1));
        assert(sm == scan_matches(line, t, query, sensitive, from + 1));
        assert(!matches_at(t, query, sensitive, from));
    }
}

/// The scan misses nothing: wherever, from character `from` on, a piece of
/// line `t` as long as the query matches it, the scan reports a match of a
/// piece that starts at or before that one and reaches into it: the piece
/// itself, or the earlier match that it overlaps.
pub proof fn lemma_scan_is_complete(
    line: int,
    t: Seq<char>,
    query: Seq<char>,
    sensitive: bool,
    from: int,
    i: int,
)
    requires
        0 <= from <= i,
        i + query.len() <= t.len(),
        query.len() > 0,
        piece_matches(t.subrange(i, i + query.len()), query, sensitive),
    ensures
        exists|c: int|
            from <= c <= i < c + query.len() && scan_matches(line, t, query, sensitive, from).contains(
                #[trigger] match_at(line, t, c, query.len() as int),
            ),
    decreases i - from,
{
    let k = query.len() as int;
    let sc = scan_matches(line, t, query, sensitive, from);
    if piece_matches(t.subrange(from, from + k), query, sensitive) {
        let rest = scan_matches(line, t, query, sensitive, from + k);
        assert(sc == seq![match_at(line, t, from, k)] + rest);
        if i < from + k {
            assert(sc[0] == match_at(line, t, from, k));
        } else {
            lemma_scan_is_complete(line, t, query, sensitive, from + k, i);
            let c = choose|c: int|
                from + k <= c <= i < c + query.len() && rest.contains(
                    #[trigger] match_at(line, t, c, query.len() as int),
                );
            let y = choose|y: int| 0 <= y < rest.len() && rest[y] == match_at(line, t, c, k);
            assert(sc[y + 1] == rest[y]);
        }
    } else {
        assert(i != from);
        lemma_scan_is_complete(line, t, query, sensitive, from + 1, i);
        assert(sc == scan_matches(line, t, query, sensitive, from + 1));
    }
}

/// The match index that follows `cur` among `n > 0` matches, wrapping around.
pub open spec fn next_index(cur: Option<usize>, n: nat) -> usize {
    match cur {
        Some(i) => ((i + 1) % (n as int)) as usize,
        None => 0,
    }
}

/// The match index that precedes `cur` among `n > 0` matches, wrapping around.
pub open spec fn prev_index(cur: Option<usize>, n: nat) -> usize {
    match cur {
        Some(i) => if i == 0 {
            (n - 1) as usize
        } else {
            (i - 1) as usize
        },
        None => (n - 1) as usize,
    }
}

/// Navigation through `n > 0` matches is cyclic: from index `i`, moving to
/// the next match and then to the previous one comes back to `i`, and so does
/// moving back and then forth; from the last match the next one is the first,
/// and from the first the previous one is the last.
pub proof fn lemma_navigation_is_cyclic(i: usize, n: nat)
    requires
        n > 0,
        i < n,
        n <= usize::MAX,
    ensures
        prev_index(Some(next_index(Some(i), n)), n) == i,
        next_index(Some(prev_index(Some(i), n)), n) == i,
        i == n - 1 ==> next_index(Some(i), n) == 0,
        i == 0 ==> prev_index(Some(i), n) == n - 1,
{
    if i + 1 < n {
        assert((i + 1) % (n as int) == i + 1) by (nonlinear_arith)
            requires
                0 <= i + 1 < n,
        ;
    } else {
        assert((i + 1) % (n as int) == 0) by (nonlinear_arith)
            requires
                i + 1 == n,
                n > 0,
        ;
    }
    if i == 0 {
        assert(((n - 1) + 1) % (n as int) == 0) by (nonlinear_arith)
            requires
                n > 0,
        ;
    } else {
        assert(((i - 1) + 1) % (n as int) == i) by (nonlinear_arith)
            requires
                0 <= i < n,
        ;
    }
}

/// The query being edited, the matches of the last search, and the current match.
pub struct SearchState {
    input: Input,
    matches: Vec<Match>,
    current_index: Option<usize>,
}

impl SearchState {
    /// The query text.
    pub closed spec fn query_view(&self) -> Seq<char> {
        input_text(self.input)
    }

    /// The cursor of the query editor, in characters.
    pub closed spec fn cursor_view(&self) -> nat {
        input_cursor(self.input)
    }

    /// The matches of the last search.
    pub closed spec fn matches_view(&self) -> Seq<Match> {
        self.matches@
    }

    /// The index of the current match, if any.
    pub closed spec fn current_view(&self) -> Option<usize> {
        self.current_index
    }

    /// The current index, if any, points at a match.
    pub open spec fn wf(&self) -> bool {
        self.current_view() matches Some(i) ==> i < self.matches_view().len()
    }

    /// An empty query with no match.
    pub fn new() -> (r: SearchState)
        ensures
            r.wf(),
            r.query_view() == Seq::<char>::empty(),
            r.cursor_view() == 0,
            r.matches_view() == Seq::<Match>::empty(),
            r.current_view() is None,
    {
        SearchState { input: Input::new(String::new()), matches: Vec::new(), current_index: None }
    }

    /// The query text.
    pub fn query(&self) -> (r: &str)
        ensures
            r@ == self.query_view(),
    {
        self.input.value()
    }

    /// Applies one editing request to the query; the matches stay as they are.
    pub fn handle_input(&mut self, req: InputRequest)
        requires
            old(self).wf(),
        ensures
            final(self).wf(),
            final(self).query_view() == edited_text(
                old(self).query_view(),
                old(self).cursor_view(),
                req,
            ),
            final(self).matches_view() == old(self).matches_view(),
            final(self).current_view() == old(self).current_view(),
    {
        self.input.handle(req);
    }

    /// Sets the query to `query` and replaces the matches with every
    /// non-overlapping occurrence of it in `buffer`, line by line. A query
    /// without an uppercase character matches regardless of case. The first
    /// match, if any, becomes the current one.
    pub fn search(&mut self, query: &str, buffer: &OutputBuffer)
        ensures
            final(self).wf(),
            final(self).query_view() == query@,
            final(self).cursor_view() == query@.len(),
            final(self).matches_view() == search_result(buffer.lines_view(), query@),
            final(self).current_view() == (if final(self).matches_view().len() > 0 {
                Some(0usize)
            } else {
                None
            }),
    {
        self.input = Input::new(query.to_owned());
        self.matches = Vec::new();
        self.current_index = None;
        if query.is_empty() {
            return;
        }
        let sensitive = contains_uppercase(query);
        let key_query: String = if sensitive {
            query.to_owned()
        } else {
            lowercase(query)
        };
        let k = query.unicode_len();
        let ghost lines = plain_lines(buffer.lines_view());
        let n = buffer.len();
        let mut i: usize = 0;
        while i < n
            invariant
                n == buffer.lines_view().len(),
                lines == plain_lines(buffer.lines_view()),
                i <= n,
                k == query@.len(),
                k > 0,
                sensitive == is_case_sensitive(query@),
                key_query@ == search_text(query@, sensitive),
                input_text(self.input) == query@,
                input_cursor(self.input) == query@.len(),
                self.current_index is None,
                self.matches@ == lines_matches(lines.subrange(0, i as int), query@),
            decreases n - i,
        {
            let line = match buffer.get(i) {
                Some(l) => l,
                None => {
                    return;
                },
            };
            let content = line.plain();
            let text = content.as_str();
            let offs = char_offsets(text);
            let m = offs.len() - 1;
            let ghost t = text@;
            let ghost base = self.matches@;
            let ghost all = scan_matches(i as int, t, query@, sensitive, 0);
            let mut j: usize = 0;
            proof {
                assert(base + all =~= self.matches@ + scan_matches(i as int, t, query@, sensitive, 0));
            }
            while k <= m && j <= m - k
                invariant
                    m == t.len(),
                    t == text@,
                    offs@.len() == t.len() + 1,
                    forall|x: int| 0 <= x <= t.len() ==> #[trigger] offs@[x] == encode_utf8(t.subrange(0, x)).len(),
                    k == query@.len(),
                    k > 0,
                    j <= m,
                    key_query@ == search_text(query@, sensitive),
                    all == scan_matches(i as int, t, query@, sensitive, 0),
                    base + all == self.matches@ + scan_matches(i as int, t, query@, sensitive, j as int),
                    input_text(self.input) == query@,
                    input_cursor(self.input) == query@.len(),
                    self.current_index is None,
                decreases m - j,
            {
                let piece = char_range(text, &offs, j, j + k);
                let key: String = if sensitive {
                    piece.to_owned()
                } else {
                    lowercase(piece)
                };
                if key == key_query {
                    proof {
                        lemma_prefix_boundary(t.subrange(0, j + k), j as int);
                        assert(t.subrange(0, j + k).subrange(0, j as int) =~= t.subrange(0, j as int));
                    }
                    let ghost before = self.matches@;
                    self.matches.push(Match { line: i, start: offs[j], len: offs[j + k] - offs[j] });
                    proof {
                        assert(self.matches@ == before + seq![match_at(i as int, t, j as int, k as int)]);
                        assert(scan_matches(i as int, t, query@, sensitive, j as int) == seq![match_at(i as int, t, j as int, k as int)]
                            + scan_matches(i as int, t, query@, sensitive, j + k));
                        assert(base + all =~= self.matches@ + scan_matches(i as int, t, query@, sensitive, j + k));
                    }
                    j = j + k;
                } else {
                    j = j + 1;
                }
            }
            proof {
                assert(scan_matches(i as int, t, query@, sensitive, j as int) == Seq::<Match>::empty());
                assert(self.matches@ =~= base + all);
                let pre = lines.subrange(0, i + 1);
                assert(pre.drop_last() =~= lines.subrange(0, i as int));
                assert(pre.last() == line.plain_view());
            }
            i = i + 1;
        }
        assert(lines.subrange(0, n as int) =~= lines);
        if self.matches.len() > 0 {
            self.current_index = Some(0);
        }
    }

    /// The matches of the last search.
    pub fn matches(&self) -> (r: &[Match])
        ensures
            r@ == self.matches_view(),
    {
        self.matches.as_slice()
    }

    /// The number of matches.
    pub fn match_count(&self) -> (r: usize)
        ensures
            r == self.matches_view().len(),
    {
        self.matches.len()
    }

    /// The current match's position counted from 1, for display.
    pub fn current_match_display(&self) -> (r: Option<usize>)
        requires
            self.wf(),
        ensures
            r == (match self.current_view() {
                Some(i) => Some((i + 1) as usize),
                None => None,
            }),
    {
        match self.current_index {
            Some(i) => {
                assert(self.matches@.len() <= usize::MAX) by {
                    broadcast use vstd::std_specs::vec::axiom_spec_len;
                    assert(self.matches@.len() == self.matches.len());
                }
                Some(i + 1)
            },
            None => None,
        }
    }

    /// The index of the current match, if any.
    pub fn current_index(&self) -> (r: Option<usize>)
        ensures
            r == self.current_view(),
    {
        self.current_index
    }

    /// The current match.
    pub fn current_match(&self) -> (r: Option<&Match>)
        requires
            self.wf(),
        ensures
            r == (match self.current_view() {
                Some(i) => Some(&self.matches_view()[i as int]),
                None => None,
            }),
    {
        match self.current_index {
            Some(i) => Some(&self.matches[i]),
            None => None,
        }
    }

    /// Moves to the next match, wrapping from the last to the first, and
    /// returns its line; `None`, with nothing changed, when there is no match.
    pub fn next_match(&mut self) -> (r: Option<usize>)
        requires
            old(self).wf(),
        ensures
            final(self).wf(),
            final(self).query_view() == old(self).query_view(),
            final(self).cursor_view() == old(self).cursor_view(),
            final(self).matches_view() == old(self).matches_view(),
            old(self).matches_view().len() == 0 ==> r is None && final(self).current_view()
                == old(self).current_view(),
            old(self).matches_view().len() > 0 ==> {
                let k = next_index(old(self).current_view(), old(self).matches_view().len());
                &&& final(self).current_view() == Some(k)
                &&& r == Some(old(self).matches_view()[k as int].line)
            },
    {
        if self.matches.len() == 0 {
            return None;
        }
        let new_index = match self.current_index {
            Some(i) => (i + 1) % self.matches.len(),
            None => 0,
        };
        self.current_index = Some(new_index);
        Some(self.matches[new_index].line)
    }

    /// Moves to the previous match, wrapping from the first to the last, and
    /// returns its line; `None`, with nothing changed, when there is no match.
    pub fn prev_match(&mut self) -> (r: Option<usize>)
        requires
            old(self).wf(),
        ensures
            final(self).wf(),
            final(self).query_view() == old(self).query_view(),
            final(self).cursor_view() == old(self).cursor_view(),
            final(self).matches_view() == old(self).matches_view(),
            old(self).matches_view().len() == 0 ==> r is None && final(self).current_view()
                == old(self).current_view(),
            old(self).matches_view().len() > 0 ==> {
                let k = prev_index(old(self).current_view(), old(self).matches_view().len());
                &&& final(self).current_view() == Some(k)
                &&& r == Some(old(self).matches_view()[k as int].line)
            },
    {
        if self.matches.len() == 0 {
            return None;
        }
        let new_index = match self.current_index {
            Some(i) => if i == 0 {
                self.matches.len() - 1
            } else {
                i - 1
            },
            None => self.matches.len() - 1,
        };
        self.current_index = Some(new_index);
        Some(self.matches[new_index].line)
    }

    /// Empties the query and drops the matches.
    pub fn clear(&mut self)
        ensures
            final(self).wf(),
            final(self).query_view() == Seq::<char>::empty(),
            final(self).cursor_view() == 0,
            final(self).matches_view() == Seq::<Match>::empty(),
            final(self).current_view() is None,
    {
        self.input.reset();
        self.matches = Vec::new();
        self.current_index = None;
    }

    /// Empties the query only: the matches and the current one stay, so that
    /// navigation through the last search goes on.
    pub fn clear_input(&mut self)
        requires
            old(self).wf(),
        ensures
            final(self).wf(),
            final(self).query_view() == Seq::<char>::empty(),
            final(self).cursor_view() == 0,
            final(self).matches_view() == old(self).matches_view(),
            final(self).current_view() == old(self).current_view(),
    {
        self.input.reset();
    }

    /// Whether the query is not empty.
    pub fn is_active(&self) -> (r: bool)
        ensures
            r == (self.query_view().len() > 0),
    {
        !self.query().is_empty()
    }

    /// Whether the last search found anything.
    pub fn has_matches(&self) -> (r: bool)
        ensures
            r == (self.matches_view().len() > 0),
    {
        self.matches.len() > 0
    }
}

impl Default for SearchState {
    fn default() -> (r: SearchState)
        ensures
            r.wf(),
            r.query_view() == Seq::<char>::empty(),
            r.cursor_view() == 0,
            r.matches_view() == Seq::<Match>::empty(),
            r.current_view() is None,
    {
        SearchState::new()
    }
}

} // verus!
