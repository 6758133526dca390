//! A tab: one command, its output, its run status and its scroll state.

use crate::buffer::{pushed, OutputBuffer, OutputLine};
use crate::text::lemma_encode_concat;
use vstd::prelude::*;
use vstd::string::{StringExecFns, StringSliceAdditionalSpecFns};
use vstd::utf8::*;

verus! {

broadcast use {encode_utf8_valid_utf8, vstd::slice::axiom_spec_len};

/// Where a tab's command stands.
#[derive(Clone, Debug, PartialEq, Eq)]
pub enum CommandStatus {
    /// Running
    Running,
    /// Exited with this code
    Finished { exit_code: i32 },
    /// Could not be started
    Failed { reason: String },
}

/// The most bytes of a command that a tab's name shows.
pub const MAX_TAB_NAME_LEN: usize = 20;

/// The scroll offset at which the last line of a buffer of `len` lines is the
/// last one visible, with `visible` lines on screen.
pub open spec fn max_scroll(len: nat, visible: nat) -> nat {
    if len > visible {
        (len - visible) as nat
    } else {
        0
    }
}

/// The largest character boundary of `b` at or below `k`.
pub open spec fn boundary_at_or_below(b: Seq<u8>, k: int) -> int
    decreases k,
{
    if k <= 0 || is_char_boundary(b, k) {
        if k <= 0 {
            0
        } else {
            k
        }
    } else {
        boundary_at_or_below(b, k - 1)
    }
}

/// The UTF-8 text of a tab's name for a command whose UTF-8 text is `b`: the
/// whole command when it is short, else its longest prefix of whole characters
/// within the limit, followed by an ellipsis.
pub open spec fn display_bytes(b: Seq<u8>, ellipsis: Seq<u8>) -> Seq<u8> {
    if b.len() <= MAX_TAB_NAME_LEN {
        b
    } else {
        b.subrange(0, boundary_at_or_below(b, MAX_TAB_NAME_LEN as int)) + ellipsis
    }
}

/// A command together with its output buffer, run status and scroll state.
pub struct Tab {
    command: String,
    buffer: OutputBuffer,
    status: CommandStatus,
    scroll_offset: usize,
    horizontal_scroll: usize,
    auto_scroll: bool,
    visible_lines: usize,
}

impl Tab {
    /// The command.
    pub closed spec fn command_view(&self) -> Seq<char> {
        self.command@
    }

    /// The output buffer.
    pub closed spec fn buffer_view(&self) -> OutputBuffer {
        self.buffer
    }

    /// The run status.
    pub closed spec fn status_view(&self) -> CommandStatus {
        self.status
    }

    /// The vertical scroll offset.
    pub closed spec fn scroll_view(&self) -> usize {
        self.scroll_offset
    }

    /// The horizontal scroll offset.
    pub closed spec fn hscroll_view(&self) -> usize {
        self.horizontal_scroll
    }

    /// Whether new output scrolls to the bottom.
    pub closed spec fn auto_scroll_view(&self) -> bool {
        self.auto_scroll
    }

    /// How many lines the screen shows.
    pub closed spec fn visible_view(&self) -> usize {
        self.visible_lines
    }

    /// This tab with its status replaced by `status`.
    pub closed spec fn with_status(&self, status: CommandStatus) -> Tab {
        Tab { status, ..*self }
    }

    /// The largest useful scroll offset.
    pub open spec fn max_scroll_view(&self) -> nat {
        max_scroll(self.buffer_view().lines_view().len(), self.visible_view() as nat)
    }

    /// The buffer keeps to its bound.
    pub open spec fn wf(&self) -> bool {
        self.buffer_view().wf()
    }

    /// A running tab for `command` with an empty buffer of at most
    /// `max_buffer_lines` lines (0 for no bound), scrolled to the top, following
    /// new output.
    pub fn new(command: String, max_buffer_lines: usize) -> (r: Tab)
        ensures
            r.wf(),
            r.command_view() == command@,
            r.buffer_view().lines_view() == Seq::<OutputLine>::empty(),
            r.buffer_view().max_view() == max_buffer_lines,
            r.status_view() == CommandStatus::Running,
            r.scroll_view() == 0,
            r.hscroll_view() == 0,
            r.auto_scroll_view(),
            r.visible_view() == 0,
    {
        Tab {
            command,
            buffer: OutputBuffer::new(max_buffer_lines),
            status: CommandStatus::Running,
            scroll_offset: 0,
            horizontal_scroll: 0,
            auto_scroll: true,
            visible_lines: 0,
        }
    }

    /// The command.
    pub fn command(&self) -> (r: &str)
        ensures
            r@ == self.command_view(),
    {
        self.command.as_str()
    }

    /// The name shown on the tab: the command, cut to its first
    /// `MAX_TAB_NAME_LEN` bytes (at a character boundary) and followed by
    /// "..." when it is longer.
    pub fn display_name(&self) -> (r: String)
        ensures
            encode_utf8(r@) == display_bytes(encode_utf8(self.command_view()), encode_utf8("..."@)),
    {
        let text = self.command.as_str();
        let ghost b = text.spec_bytes();
        if text.as_bytes().len() <= MAX_TAB_NAME_LEN {
            let r = self.command.clone();
            return r;
        }
        let mut k: usize = MAX_TAB_NAME_LEN;
        while k > 0 && !text.is_char_boundary(k)
            invariant
                b == text.spec_bytes(),
                k <= MAX_TAB_NAME_LEN < b.len(),
                boundary_at_or_below(b, k as int) == boundary_at_or_below(b, MAX_TAB_NAME_LEN as int),
            decreases k,
        {
            k = k - 1;
        }
        assert(boundary_at_or_below(b, k as int) == k as int);
        let (head, _) = text.split_at(k);
        let mut r = head.to_owned();
        r.append("...");
        proof {
            vstd::utf8::encode_utf8_valid_utf8(self.command@);
            lemma_encode_concat(head@, "..."@);
            assert(encode_utf8(head@) == head.spec_bytes());
            assert(head.spec_bytes() == b.subrange(0, k as int));
        }
        r
    }

    /// The run status.
    pub fn status(&self) -> (r: &CommandStatus)
        ensures
            *r == self.status_view(),
    {
        &self.status
    }

    /// Sets the run status.
    pub fn set_status(&mut self, status: CommandStatus)
        ensures
            *final(self) == old(self).with_status(status),
            final(self).status_view() == status,
            final(self).wf() == old(self).wf(),
            final(self).command_view() == old(self).command_view(),
            final(self).buffer_view() == old(self).buffer_view(),
            final(self).scroll_view() == old(self).scroll_view(),
            final(self).hscroll_view() == old(self).hscroll_view(),
            final(self).auto_scroll_view() == old(self).auto_scroll_view(),
            final(self).visible_view() == old(self).visible_view(),
    {
        self.status = status;
    }

    /// Appends a line to the buffer, and scrolls to the bottom when following
    /// new output.
    pub fn push_output(&mut self, line: OutputLine)
        requires
            old(self).wf(),
            old(self).buffer_view().max_view() == 0 ==> old(self).buffer_view().lines_view().len()
                < usize::MAX,
        ensures
            final(self).wf(),
            final(self).buffer_view().max_view() == old(self).buffer_view().max_view(),
            final(self).buffer_view().lines_view() == pushed(
                old(self).buffer_view().lines_view(),
                line,
                old(self).buffer_view().max_view(),
            ),
            final(self).scroll_view() == (if old(self).auto_scroll_view() {
                final(self).max_scroll_view() as usize
            } else {
                old(self).scroll_view()
            }),
            final(self).status_view() == old(self).status_view(),
            final(self).command_view() == old(self).command_view(),
            final(self).hscroll_view() == old(self).hscroll_view(),
            final(self).auto_scroll_view() == old(self).auto_scroll_view(),
            final(self).visible_view() == old(self).visible_view(),
    {
        self.buffer.push(line);
        if self.auto_scroll {
            self.scroll_to_bottom();
        }
    }

    /// The output buffer.
    pub fn buffer(&self) -> (r: &OutputBuffer)
        ensures
            *r == self.buffer_view(),
    {
        &self.buffer
    }

    /// Sets how many lines the screen shows.
    pub fn set_visible_lines(&mut self, lines: usize)
        ensures
            final(self).visible_view() == lines,
            final(self).wf() == old(self).wf(),
            final(self).command_view() == old(self).command_view(),
            final(self).buffer_view() == old(self).buffer_view(),
            final(self).status_view() == old(self).status_view(),
            final(self).scroll_view() == old(self).scroll_view(),
            final(self).hscroll_view() == old(self).hscroll_view(),
            final(self).auto_scroll_view() == old(self).auto_scroll_view(),
    {
        self.visible_lines = lines;
    }

    /// The vertical scroll offset.
    pub fn scroll_offset(&self) -> (r: usize)
        ensures
            r == self.scroll_view(),
    {
        self.scroll_offset
    }

    /// The largest useful scroll offset.
    fn max_scroll_offset(&self) -> (r: usize)
        ensures
            r == self.max_scroll_view(),
    {
        if self.buffer.len() > self.visible_lines {
            self.buffer.len() - self.visible_lines
        } else {
            0
        }
    }

    /// Scrolls down one line, unless already at the largest offset.
    pub fn scroll_down(&mut self)
        ensures
            final(self).scroll_view() == (if old(self).scroll_view() < old(self).max_scroll_view() {
                old(self).scroll_view() + 1
            } else {
                old(self).scroll_view() as int
            }),
            final(self).unscrolled_eq(*old(self)),
    {
        let max_offset = self.max_scroll_offset();
        if self.scroll_offset < max_offset {
            self.scroll_offset = self.scroll_offset + 1;
        }
    }

    /// Scrolls up one line, stopping at the top.
    pub fn scroll_up(&mut self)
        ensures
            final(self).scroll_view() == (if old(self).scroll_view() > 0 {
                old(self).scroll_view() - 1
            } else {
                0
            }),
            final(self).unscrolled_eq(*old(self)),
    {
        if self.scroll_offset > 0 {
            self.scroll_offset = self.scroll_offset - 1;
        }
    }

    /// Scrolls down half a screen, stopping at the largest offset.
    pub fn scroll_half_page_down(&mut self)
        ensures
            final(self).scroll_view() == vstd::math::min(
                old(self).scroll_view() + old(self).visible_view() / 2,
                old(self).max_scroll_view() as int,
            ),
            final(self).unscrolled_eq(*old(self)),
    {
        let half_page = self.visible_lines / 2;
        let max_offset = self.max_scroll_offset();
        if self.scroll_offset >= max_offset || half_page >= max_offset - self.scroll_offset {
            self.scroll_offset = max_offset;
        } else {
            self.scroll_offset = self.scroll_offset + half_page;
        }
    }

    /// Scrolls up half a screen, stopping at the top.
    pub fn scroll_half_page_up(&mut self)
        ensures
            final(self).scroll_view() == vstd::math::max(
                old(self).scroll_view() - old(self).visible_view() / 2,
                0,
            ),
            final(self).unscrolled_eq(*old(self)),
    {
        let half_page = self.visible_lines / 2;
        if self.scroll_offset > half_page {
            self.scroll_offset = self.scroll_offset - half_page;
        } else {
            self.scroll_offset = 0;
        }
    }

    /// Scrolls to the first line.
    pub fn scroll_to_top(&mut self)
        ensures
            final(self).scroll_view() == 0,
            final(self).unscrolled_eq(*old(self)),
    {
        self.scroll_offset = 0;
    }

    /// Scrolls so that the last line is the last one visible.
    pub fn scroll_to_bottom(&mut self)
        ensures
            final(self).scroll_view() == old(self).max_scroll_view(),
            final(self).unscrolled_eq(*old(self)),
    {
        self.scroll_offset = self.max_scroll_offset();
    }

    /// Scrolls to `line`, or to the largest offset when that is smaller.
    pub fn scroll_to_line(&mut self, line: usize)
        ensures
            final(self).scroll_view() == vstd::math::min(line as int, old(self).max_scroll_view() as int),
            final(self).unscrolled_eq(*old(self)),
    {
        let max_offset = self.max_scroll_offset();
        self.scroll_offset = if line < max_offset {
            line
        } else {
            max_offset
        };
    }

    /// Whether the tab follows new output.
    pub fn auto_scroll(&self) -> (r: bool)
        ensures
            r == self.auto_scroll_view(),
    {
        self.auto_scroll
    }

    /// Flips whether the tab follows new output.
    pub fn toggle_auto_scroll(&mut self)
        ensures
            final(self).auto_scroll_view() == !old(self).auto_scroll_view(),
            final(self).wf() == old(self).wf(),
            final(self).command_view() == old(self).command_view(),
            final(self).buffer_view() == old(self).buffer_view(),
            final(self).status_view() == old(self).status_view(),
            final(self).scroll_view() == old(self).scroll_view(),
            final(self).hscroll_view() == old(self).hscroll_view(),
            final(self).visible_view() == old(self).visible_view(),
    {
        self.auto_scroll = !self.auto_scroll;
    }

    /// Sets whether the tab follows new output.
    pub fn set_auto_scroll(&mut self, enabled: bool)
        ensures
            final(self).auto_scroll_view() == enabled,
            final(self).wf() == old(self).wf(),
            final(self).command_view() == old(self).command_view(),
            final(self).buffer_view() == old(self).buffer_view(),
            final(self).status_view() == old(self).status_view(),
            final(self).scroll_view() == old(self).scroll_view(),
            final(self).hscroll_view() == old(self).hscroll_view(),
            final(self).visible_view() == old(self).visible_view(),
    {
        self.auto_scroll = enabled;
    }

    /// The horizontal scroll offset.
    pub fn horizontal_scroll(&self) -> (r: usize)
        ensures
            r == self.hscroll_view(),
    {
        self.horizontal_scroll
    }

    /// Scrolls left one character, stopping at the left edge.
    pub fn scroll_left(&mut self)
        ensures
            final(self).hscroll_view() == (if old(self).hscroll_view() > 0 {
                old(self).hscroll_view() - 1
            } else {
                0
            }),
            final(self).unhscrolled_eq(*old(self)),
    {
        if self.horizontal_scroll > 0 {
            self.horizontal_scroll = self.horizontal_scroll - 1;
        }
    }

    /// Scrolls right one character (the offset stays at `usize::MAX` once there).
    pub fn scroll_right(&mut self)
        ensures
            final(self).hscroll_view() == vstd::math::min(old(self).hscroll_view() + 1, usize::MAX as int),
            final(self).unhscrolled_eq(*old(self)),
    {
        if self.horizontal_scroll < usize::MAX {
            self.horizontal_scroll = self.horizontal_scroll + 1;
        }
    }

    /// Scrolls to the left edge.
    pub fn scroll_to_left(&mut self)
        ensures
            final(self).hscroll_view() == 0,
            final(self).unhscrolled_eq(*old(self)),
    {
        self.horizontal_scroll = 0;
    }

    /// Brings the tab back to how a fresh run starts: empty buffer (same
    /// bound), status `Running`, scrolled to the top and left, following new
    /// output. The command and the screen height stay.
    pub fn reset(&mut self)
        ensures
            final(self).wf(),
            final(self).buffer_view().lines_view() == Seq::<OutputLine>::empty(),
            final(self).buffer_view().max_view() == old(self).buffer_view().max_view(),
            final(self).status_view() == CommandStatus::Running,
            final(self).scroll_view() == 0,
            final(self).hscroll_view() == 0,
            final(self).auto_scroll_view(),
            final(self).command_view() == old(self).command_view(),
            final(self).visible_view() == old(self).visible_view(),
    {
        self.buffer.clear();
        self.status = CommandStatus::Running;
        self.scroll_offset = 0;
        self.horizontal_scroll = 0;
        self.auto_scroll = true;
    }

    /// All but the vertical scroll offset are those of `o`.
    pub open spec fn unscrolled_eq(&self, o: Tab) -> bool {
        &&& self.wf() == o.wf()
        &&& self.command_view() == o.command_view()
        &&& self.buffer_view() == o.buffer_view()
        &&& self.status_view() == o.status_view()
        &&& self.hscroll_view() == o.hscroll_view()
        &&& self.auto_scroll_view() == o.auto_scroll_view()
        &&& self.visible_view() == o.visible_view()
    }

    /// All but the horizontal scroll offset are those of `o`.
    pub open spec fn unhscrolled_eq(&self, o: Tab) -> bool {
        &&& self.wf() == o.wf()
        &&& self.command_view() == o.command_view()
        &&& self.buffer_view() == o.buffer_view()
        &&& self.status_view() == o.status_view()
        &&& self.scroll_view() == o.scroll_view()
        &&& self.auto_scroll_view() == o.auto_scroll_view()
        &&& self.visible_view() == o.visible_view()
    }
}

} // verus!
