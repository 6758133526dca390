//! Styled text spans, and the decoding of ANSI escape sequences into them.

use ansi_to_tui::IntoText;
use ratatui::style::{Color, Modifier, Style};
use vstd::prelude::*;

verus! {

/// ratatui's terminal colors: a plain enum, whose variants Verus reads.
#[verifier::external_type_specification]
pub struct ExColor(Color);

/// ratatui's text attributes (bold, underlined, ...), kept opaque.
#[verifier::external_type_specification]
#[verifier::external_body]
pub struct ExModifier(Modifier);

/// ratatui's `Style`, whose fields are all public: its colors, and its
/// attributes to add and to remove.
#[verifier::external_type_specification]
pub struct ExStyle(Style);

/// The bits of a set of text attributes; no bit set means no attribute.
pub uninterp spec fn modifier_bits(m: Modifier) -> u16;

/// Relies on the `bits` method that bitflags gives ratatui's `Modifier`: the
/// bits of the set.
pub assume_specification[ Modifier::bits ](m: &Modifier) -> (r: u16)
    ensures
        r == modifier_bits(*m),
;

/// `s` is the style of plain text: no color, no underline color, and no
/// attribute added or removed.
pub open spec fn is_plain_style(s: Style) -> bool {
    &&& s.fg is None
    &&& s.bg is None
    &&& s.underline_color is None
    &&& modifier_bits(s.add_modifier) == 0
    &&& modifier_bits(s.sub_modifier) == 0
}

/// Relies on ratatui's `Style::new`: no color, no underline color, and
/// `Modifier::empty()` (no bit set) for the attributes to add and to remove.
pub assume_specification[ Style::new ]() -> (r: Style)
    ensures
        is_plain_style(r),
;

/// Relies on ratatui's `Style::bg`: the same style with its background replaced.
pub assume_specification[ Style::bg ](s: Style, color: Color) -> (r: Style)
    ensures
        r == (Style { bg: Some(color), ..s }),
;

/// Relies on ratatui's derived `Clone` for `Style`, which is `Copy`: the clone equals the value cloned.
pub assume_specification[ <Style as Clone>::clone ](s: &Style) -> (r: Style)
    ensures
        r == *s,
;

/// A piece of text drawn in a single style.
#[derive(Clone, Debug)]
pub struct StyledSpan {
    pub content: String,
    pub style: Style,
}

/// The mathematical value of a span: its characters and its style.
pub struct SpanView {
    pub content: Seq<char>,
    pub style: Style,
}

impl View for StyledSpan {
    type V = SpanView;

    open spec fn view(&self) -> SpanView {
        SpanView { content: self.content@, style: self.style }
    }
}

impl StyledSpan {
    /// A span that holds `content` with no styling.
    pub fn raw(content: String) -> (r: StyledSpan)
        ensures
            r.content@ == content@,
            is_plain_style(r.style),
    {
        StyledSpan { content, style: Style::new() }
    }

    /// Whether the span is drawn as plain text: no color, no underline
    /// color, no attribute added or removed.
    pub fn is_unstyled(&self) -> (r: bool)
        ensures
            r == is_plain_style(self.style),
    {
        self.style.fg.is_none() && self.style.bg.is_none() && self.style.underline_color.is_none()
            && self.style.add_modifier.bits() == 0 && self.style.sub_modifier.bits() == 0
    }

    /// A span that holds `content` in `style`.
    pub fn styled(content: String, style: Style) -> (r: StyledSpan)
        ensures
            r.content@ == content@,
            r.style == style,
    {
        StyledSpan { content, style }
    }
}

/// The text of a sequence of spans, in order.
pub open spec fn spans_text(spans: Seq<SpanView>) -> Seq<char>
    decreases spans.len(),
{
    if spans.len() == 0 {
        Seq::empty()
    } else {
        spans_text(spans.drop_last()) + spans.last().content
    }
}

/// The views of a vector of spans.
pub open spec fn spans_view(spans: Seq<StyledSpan>) -> Seq<SpanView> {
    spans.map_values(|s: StyledSpan| s@)
}

/// What decoding the escape sequences of a text gives: its lines of styled
/// spans, or nothing where the decoder reports an error.
pub uninterp spec fn ansi_lines_of(s: Seq<char>) -> Option<Seq<Seq<SpanView>>>;

/// The views of a decoder result.
pub open spec fn decoded_view(r: Option<Vec<Vec<StyledSpan>>>) -> Option<Seq<Seq<SpanView>>> {
    match r {
        Some(lines) => Some(lines@.map_values(|l: Vec<StyledSpan>| spans_view(l@))),
        None => None,
    }
}

/// Relies on ansi_to_tui's `IntoText::into_text`: decodes the escape sequences
/// of `s` into lines of styled spans, or fails; the outcome depends on `s` alone.
#[verifier::external_body]
pub(crate) fn decode_ansi(s: &str) -> (r: Option<Vec<Vec<StyledSpan>>>)
    ensures
        decoded_view(r) == ansi_lines_of(s@),
{
    match s.into_text() {
        Ok(text) => Some(
            text.lines.into_iter().map(|line| {
                line.spans.into_iter().map(|sp| StyledSpan { content: sp.content.into_owned(), style: sp.style }).collect()
            }).collect(),
        ),
        Err(_) => None,
    }
}

} // verus!
