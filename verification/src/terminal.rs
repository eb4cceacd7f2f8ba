//! What a terminal is sent: the escape sequences of a session, and the
//! differential renderer, which turns a frame and the frame shown before it
//! into the text that updates the screen.

use crate::error::TerminalError;
use crate::frame::{FixedCharWidthEstimator, FrameView, TerminalChar, TerminalFrame};
use crate::geometry::{TerminalPosition, TerminalSize};
use crate::input::TerminalInput;
use crate::style::TerminalStyle;
use crate::text::{decimal_digits, push_decimal};
use vstd::prelude::*;
use vstd::string::StringExecFns;

verus! {

/// What a terminal reports to the program.
#[derive(Debug, Clone, Copy, PartialEq, Eq, Structural, PartialOrd, Ord, Hash)]
pub enum TerminalEvent {
    /// The terminal window has a new size.
    Resize(TerminalSize),
    /// The user pressed a key or used the mouse.
    Input(TerminalInput),
}

/// Switches to the alternate screen, which leaves the scrollback alone.
pub const ENTER_ALTERNATE_SCREEN: &'static str = "\x1b[?1049h";

/// Switches back from the alternate screen.
pub const LEAVE_ALTERNATE_SCREEN: &'static str = "\x1b[?1049l";

/// Hides the cursor.
pub const HIDE_CURSOR: &'static str = "\x1b[?25l";

/// Shows the cursor.
pub const SHOW_CURSOR: &'static str = "\x1b[?25h";

/// Clears the whole screen.
pub const CLEAR_SCREEN: &'static str = "\x1b[2J";

/// The sequence that moves the cursor of the terminal to `position`:
/// `ESC [ row ; col H`, with the row and the column counted from one.
pub open spec fn move_cursor_text(position: TerminalPosition) -> Seq<char> {
    seq!['\x1b', '['] + decimal_digits((position.row + 1) as nat) + seq![';'] + decimal_digits(
        (position.col + 1) as nat,
    ) + seq!['H']
}

/// What the renderer remembers of what it last sent: whether it has passed
/// over a cell since, the style it last sent, and the row of the cell it
/// last sent.
#[derive(Debug, Clone, Copy)]
pub struct Pen {
    /// Whether a cell was passed over since the last cell was sent.
    pub skipped: bool,
    /// The style of the last cell that was sent, if one was.
    pub style: Option<TerminalStyle>,
    /// The row of the last cell that was sent, if one was.
    pub row: Option<usize>,
}

impl Pen {
    /// The pen before anything was sent.
    pub open spec fn start() -> Pen {
        Pen { skipped: false, style: None, row: None }
    }

    /// What is sent for the cell `new` of the frame to show, which stands
    /// against the cell `shown` of the frame shown before. Nothing for equal
    /// cells. Otherwise a cursor move, unless the cell follows the last
    /// sent cell on its row at once; the style, unless it is the style last
    /// sent; and the character.
    pub open spec fn cell_text(
        self,
        new: (TerminalPosition, TerminalChar),
        shown: (TerminalPosition, TerminalChar),
    ) -> Seq<char> {
        if new == shown {
            Seq::empty()
        } else {
            (if self.skipped || self.row != Some(new.0.row) {
                move_cursor_text(new.0)
            } else {
                Seq::empty()
            }) + (if self.style != Some(new.1.style) {
                new.1.style.escape_sequence()
            } else {
                Seq::empty()
            }) + seq![new.1.value]
        }
    }

    /// The pen after the cells `new` and `shown` were looked at.
    pub open spec fn after(
        self,
        new: (TerminalPosition, TerminalChar),
        shown: (TerminalPosition, TerminalChar),
    ) -> Pen {
        if new == shown {
            Pen { skipped: true, ..self }
        } else {
            Pen { skipped: false, style: Some(new.1.style), row: Some(new.0.row) }
        }
    }
}

/// The pen after the first `count` cells of `new` were held against those of `shown`.
pub open spec fn diff_pen(
    new: Seq<(TerminalPosition, TerminalChar)>,
    shown: Seq<(TerminalPosition, TerminalChar)>,
    count: nat,
) -> Pen
    decreases count,
{
    if count == 0 {
        Pen::start()
    } else {
        diff_pen(new, shown, (count - 1) as nat).after(new[count - 1], shown[count - 1])
    }
}

/// What is sent for the first `count` cells of `new`, each held against the
/// cell of `shown` with the same index.
pub open spec fn diff_text(
    new: Seq<(TerminalPosition, TerminalChar)>,
    shown: Seq<(TerminalPosition, TerminalChar)>,
    count: nat,
) -> Seq<char>
    decreases count,
{
    if count == 0 {
        Seq::empty()
    } else {
        diff_text(new, shown, (count - 1) as nat) + diff_pen(new, shown, (count - 1) as nat).cell_text(
            new[count - 1],
            shown[count - 1],
        )
    }
}

/// The number of cells that two enumerations have side by side.
pub open spec fn side_by_side(
    new: Seq<(TerminalPosition, TerminalChar)>,
    shown: Seq<(TerminalPosition, TerminalChar)>,
) -> nat {
    if new.len() <= shown.len() {
        new.len()
    } else {
        shown.len()
    }
}

/// The frame against which `frame` is drawn: the frame shown before, or,
/// where that has another size, an empty frame of the size of `frame`.
pub open spec fn shown_before(frame: FrameView, last: FrameView) -> FrameView {
    if frame.size == last.size {
        last
    } else {
        FrameView::empty(frame.size)
    }
}

/// Where the cursor is left after a frame was drawn: at the wished position
/// and visible, or hidden where none is wished.
pub open spec fn cursor_text(cursor: Option<TerminalPosition>) -> Seq<char> {
    match cursor {
        Some(position) => move_cursor_text(position) + SHOW_CURSOR@,
        None => Seq::empty(),
    }
}

/// The text that turns a screen that shows `last` into one that shows
/// `frame`: the cursor is hidden; the screen is cleared where the size has
/// changed; the cells of `frame` that differ from what is shown are sent;
/// and the cursor is put where it is wished.
pub open spec fn render_text(frame: FrameView, last: FrameView, cursor: Option<TerminalPosition>) -> Seq<
    char,
> {
    let new = frame.enumerate();
    let shown = shown_before(frame, last).enumerate();
    HIDE_CURSOR@ + (if frame.size != last.size {
        CLEAR_SCREEN@
    } else {
        Seq::empty()
    }) + diff_text(new, shown, side_by_side(new, shown)) + cursor_text(cursor)
}

/// `a + (b + c)` is `(a + b) + c`.
proof fn lemma_join(a: Seq<char>, b: Seq<char>, c: Seq<char>)
    ensures
        a + (b + c) == (a + b) + c,
{
    assert(a + (b + c) =~= (a + b) + c);
}

/// Appends the sequence that moves the cursor of the terminal to `position`.
pub fn push_move_cursor(out: &mut String, position: TerminalPosition)
    ensures
        final(out)@ == old(out)@ + move_cursor_text(position),
{
    let ghost start = out@;
    out.push('\x1b');
    out.push('[');
    assert(out@ =~= start + seq!['\x1b', '[']);
    push_decimal(out, position.row as u128 + 1);
    out.push(';');
    push_decimal(out, position.col as u128 + 1);
    out.push('H');
    assert(out@ =~= start + move_cursor_text(position));
}

/// Appends what is sent for one cell, and moves the pen on.
fn push_cell(
    out: &mut String,
    pen: Pen,
    new: (TerminalPosition, TerminalChar),
    shown: (TerminalPosition, TerminalChar),
    Ghost(start): Ghost<Seq<char>>,
    Ghost(written): Ghost<Seq<char>>,
) -> (next: Pen)
    requires
        old(out)@ == start + written,
    ensures
        final(out)@ == start + (written + pen.cell_text(new, shown)),
        next == pen.after(new, shown),
{
    if new.0 == shown.0 && new.1 == shown.1 {
        assert(out@ =~= start + (written + pen.cell_text(new, shown)));
        return Pen { skipped: true, style: pen.style, row: pen.row };
    }
    let ghost before = out@;
    let same_row = match pen.row {
        Some(row) => row == new.0.row,
        None => false,
    };
    if pen.skipped || !same_row {
        push_move_cursor(out, new.0);
    }
    let same_style = match pen.style {
        Some(style) => style == new.1.style,
        None => false,
    };
    if !same_style {
        new.1.style.write_to(out);
    }
    out.push(new.1.value);
    proof {
        assert(out@ =~= before + pen.cell_text(new, shown));
        lemma_join(start, written, pen.cell_text(new, shown));
    }
    Pen { skipped: false, style: Some(new.1.style), row: Some(new.0.row) }
}

/// Makes the text that turns a screen that shows `last` into one that shows
/// `frame`, with the cursor left at `cursor` where one is given.
pub fn render<A, B>(
    frame: &TerminalFrame<A>,
    last: &TerminalFrame<B>,
    cursor: Option<TerminalPosition>,
) -> (out: String)
    requires
        frame.wf(),
        last.wf(),
    ensures
        out@ == render_text(frame@, last@, cursor),
{
    let mut out = String::new();
    out.append(HIDE_CURSOR);
    let new = frame.chars();
    let same_size = frame.size() == last.size();
    let shown = if same_size {
        last.chars()
    } else {
        out.append(CLEAR_SCREEN);
        let blank: TerminalFrame<FixedCharWidthEstimator> = TerminalFrame::new(frame.size());
        blank.chars()
    };
    let ghost head = out@;
    assert(head =~= HIDE_CURSOR@ + (if frame@.size != last@.size {
        CLEAR_SCREEN@
    } else {
        Seq::empty()
    }));
    assert(shown@ == shown_before(frame@, last@).enumerate());
    let count = if new.len() <= shown.len() {
        new.len()
    } else {
        shown.len()
    };
    let mut pen = Pen { skipped: false, style: None, row: None };
    let mut i: usize = 0;
    assert(out@ =~= head + diff_text(new@, shown@, 0));
    while i < count
        invariant
            i <= count,
            count == side_by_side(new@, shown@),
            out@ == head + diff_text(new@, shown@, i as nat),
            pen == diff_pen(new@, shown@, i as nat),
        decreases count - i,
    {
        pen = push_cell(
            &mut out,
            pen,
            new[i],
            shown[i],
            Ghost(head),
            Ghost(diff_text(new@, shown@, i as nat)),
        );
        i += 1;
    }
    let ghost body = out@;
    match cursor {
        Some(position) => {
            push_move_cursor(&mut out, position);
            out.append(SHOW_CURSOR);
            proof {
                lemma_join(body, move_cursor_text(position), SHOW_CURSOR@);
            }
        },
        None => {
            assert(out@ =~= body + cursor_text(cursor));
        },
    }
    out
}

/// What a terminal shows: its size, the frame that was drawn last, and where
/// the program wishes the cursor to be. It is the memory of the terminal's
/// owner, who sends the text that `render` makes and then calls `commit`.
#[derive(Debug)]
pub struct Screen {
    size: TerminalSize,
    last_frame: TerminalFrame<FixedCharWidthEstimator>,
    cursor: Option<TerminalPosition>,
}

impl Screen {
    /// The size of the terminal as it was last told.
    pub closed spec fn terminal_size(&self) -> TerminalSize {
        self.size
    }

    /// The frame that the terminal shows.
    pub closed spec fn shown(&self) -> FrameView {
        self.last_frame@
    }

    /// Where the cursor is wished to be after a frame is drawn; nowhere for a hidden cursor.
    pub closed spec fn wished_cursor(&self) -> Option<TerminalPosition> {
        self.cursor
    }

    /// Whether the frame that the terminal shows is well formed.
    pub open spec fn wf(&self) -> bool {
        self.shown().wf()
    }

    /// Makes the memory of a terminal of the given size that shows nothing
    /// yet: the frame shown has no rows and no columns, so that the first
    /// frame drawn clears the screen.
    pub fn new(size: TerminalSize) -> (screen: Self)
        ensures
            screen.terminal_size() == size,
            screen.shown() == FrameView::empty(TerminalSize { rows: 0, cols: 0 }),
            screen.wished_cursor().is_none(),
            screen.wf(),
    {
        Screen {
            size,
            last_frame: TerminalFrame::new(TerminalSize { rows: 0, cols: 0 }),
            cursor: None,
        }
    }

    /// The size of the terminal as it was last told.
    pub fn size(&self) -> (size: TerminalSize)
        ensures
            size == self.terminal_size(),
    {
        self.size
    }

    /// Takes note of the new size of the terminal.
    pub fn resize(&mut self, size: TerminalSize)
        ensures
            final(self).terminal_size() == size,
            final(self).shown() == old(self).shown(),
            final(self).wished_cursor() == old(self).wished_cursor(),
    {
        self.size = size;
    }

    /// Sets where the cursor is shown after the frames drawn from now on;
    /// `None` hides it.
    pub fn set_cursor(&mut self, position: Option<TerminalPosition>)
        ensures
            final(self).wished_cursor() == position,
            final(self).shown() == old(self).shown(),
            final(self).terminal_size() == old(self).terminal_size(),
    {
        self.cursor = position;
    }

    /// Makes the text that turns what the terminal shows into `frame`.
    pub fn render<W>(&self, frame: &TerminalFrame<W>) -> (out: String)
        requires
            self.wf(),
            frame.wf(),
        ensures
            out@ == render_text(frame@, self.shown(), self.wished_cursor()),
    {
        render(frame, &self.last_frame, self.cursor)
    }

    /// Takes note that the terminal now shows `frame`, once the text made
    /// for it was sent.
    pub fn commit<W>(&mut self, frame: TerminalFrame<W>)
        requires
            frame.wf(),
        ensures
            final(self).shown() == frame@,
            final(self).wf(),
            final(self).terminal_size() == old(self).terminal_size(),
            final(self).wished_cursor() == old(self).wished_cursor(),
    {
        self.last_frame = frame.finish();
    }
}

/// Decides whether the terminal can be taken hold of: not while another
/// owner holds it, and only where standard input and standard output are
/// both terminals. The first of the two is asked first.
pub fn check_acquisition(held: bool, input_is_terminal: bool, output_is_terminal: bool) -> (result:
    Result<(), TerminalError>)
    ensures
        result == (if held {
            Err::<(), TerminalError>(TerminalError::AlreadyAcquired)
        } else if !input_is_terminal || !output_is_terminal {
            Err::<(), TerminalError>(TerminalError::NotATerminal)
        } else {
            Ok::<(), TerminalError>(())
        }),
{
    if held {
        Err(TerminalError::AlreadyAcquired)
    } else if !input_is_terminal || !output_is_terminal {
        Err(TerminalError::NotATerminal)
    } else {
        Ok(())
    }
}

/// The text that starts a session: the alternate screen is entered and the cursor hidden.
pub fn session_start() -> (out: String)
    ensures
        out@ == ENTER_ALTERNATE_SCREEN@ + HIDE_CURSOR@,
{
    let mut out = String::new();
    out.append(ENTER_ALTERNATE_SCREEN);
    out.append(HIDE_CURSOR);
    assert(out@ =~= ENTER_ALTERNATE_SCREEN@ + HIDE_CURSOR@);
    out
}

/// The text that ends a session: the alternate screen is left and the cursor shown.
pub fn session_end() -> (out: String)
    ensures
        out@ == LEAVE_ALTERNATE_SCREEN@ + SHOW_CURSOR@,
{
    let mut out = String::new();
    out.append(LEAVE_ALTERNATE_SCREEN);
    out.append(SHOW_CURSOR);
    assert(out@ =~= LEAVE_ALTERNATE_SCREEN@ + SHOW_CURSOR@);
    out
}

/// The attributes of a terminal line that raw mode changes: the four words
/// of mode flags and the two control values of a read.
#[derive(Debug, Clone, Copy, PartialEq, Eq, Structural)]
pub struct TerminalModes {
    /// The input mode flags.
    pub input: u64,
    /// The output mode flags.
    pub output: u64,
    /// The control mode flags.
    pub control: u64,
    /// The local mode flags.
    pub local: u64,
    /// The least number of bytes that a read waits for.
    pub min_bytes: u8,
    /// The time that a read waits, in tenths of a second.
    pub read_timer: u8,
}

/// The bits of the mode flags that raw mode touches, as the platform numbers them.
#[derive(Debug, Clone, Copy, PartialEq, Eq, Structural)]
pub struct ModeBits {
    /// Input: a break raises a signal.
    pub brkint: u64,
    /// Input: carriage return becomes newline.
    pub icrnl: u64,
    /// Input: parity is checked.
    pub inpck: u64,
    /// Input: the eighth bit is stripped.
    pub istrip: u64,
    /// Input: output is stopped and started by control characters.
    pub ixon: u64,
    /// Output: output is post-processed.
    pub opost: u64,
    /// Control: the mask of the character size.
    pub csize: u64,
    /// Control: parity is generated and checked.
    pub parenb: u64,
    /// Control: characters of eight bits.
    pub cs8: u64,
    /// Local: input is echoed.
    pub echo: u64,
    /// Local: input is delivered line by line.
    pub icanon: u64,
    /// Local: extended input processing.
    pub iexten: u64,
    /// Local: control characters raise signals.
    pub isig: u64,
}

/// The attributes of raw mode, made from the attributes that were saved:
/// input arrives byte by byte, unchanged and unechoed, and output goes out
/// unchanged.
pub fn raw_modes(saved: TerminalModes, bits: ModeBits) -> (raw: TerminalModes)
    ensures
        raw.input == saved.input & !(bits.brkint | bits.icrnl | bits.inpck | bits.istrip
            | bits.ixon),
        raw.output == saved.output & !bits.opost,
        raw.control == (saved.control & !(bits.csize | bits.parenb)) | bits.cs8,
        raw.local == saved.local & !(bits.echo | bits.icanon | bits.iexten | bits.isig),
        raw.min_bytes == 1,
        raw.read_timer == 0,
{
    TerminalModes {
        input: saved.input & !(bits.brkint | bits.icrnl | bits.inpck | bits.istrip | bits.ixon),
        output: saved.output & !bits.opost,
        control: (saved.control & !(bits.csize | bits.parenb)) | bits.cs8,
        local: saved.local & !(bits.echo | bits.icanon | bits.iexten | bits.isig),
        min_bytes: 1,
        read_timer: 0,
    }
}

/// How a wait for the input and the resize signal ended.
#[derive(Debug, Clone, Copy, PartialEq, Eq, Structural)]
pub enum WaitOutcome {
    /// A signal interrupted the wait.
    Interrupted,
    /// The wait failed with the given error code of the operating system.
    Failed(i32),
    /// The time ran out and nothing is ready.
    TimedOut,
    /// Something is ready to be read.
    Ready {
        /// Whether input is ready.
        input: bool,
        /// Whether a resize signal has arrived.
        signal: bool,
    },
}

/// What has just happened while the owner of the terminal polls for an event.
#[derive(Debug, Clone, Copy, PartialEq, Eq, Structural)]
pub enum PollEvent {
    /// The poll began, and the bytes at hand held this input or none.
    Started(Option<TerminalInput>),
    /// A wait for readiness ended.
    Waited(WaitOutcome),
    /// The input was read, and the bytes at hand then held this input or none.
    InputRead(Option<TerminalInput>),
    /// The resize signal was read and the terminal has this size now.
    SizeRead(TerminalSize),
}

/// What the owner of the terminal does next while it polls for an event.
#[derive(Debug, Clone, Copy, PartialEq, Eq, Structural)]
pub enum PollAction {
    /// Wait for readiness with what is left of the timeout.
    Wait,
    /// Read from the input.
    ReadInput,
    /// Read the resize signal and ask for the size.
    ReadSize,
    /// End the poll with this event, or with none where the time ran out.
    Finish(Option<TerminalEvent>),
    /// End the poll with this error.
    Fail(TerminalError),
}

/// The action that follows `event` in a poll.
pub open spec fn poll_action(event: PollEvent) -> PollAction {
    match event {
        PollEvent::Started(Some(input)) => PollAction::Finish(Some(TerminalEvent::Input(input))),
        PollEvent::Started(None) => PollAction::Wait,
        PollEvent::Waited(WaitOutcome::Interrupted) => PollAction::Wait,
        PollEvent::Waited(WaitOutcome::Failed(code)) => PollAction::Fail(
            TerminalError::OsCall(code),
        ),
        PollEvent::Waited(WaitOutcome::TimedOut) => PollAction::Finish(None),
        PollEvent::Waited(WaitOutcome::Ready { input, signal }) => if input {
            PollAction::ReadInput
        } else if signal {
            PollAction::ReadSize
        } else {
            PollAction::Wait
        },
        PollEvent::InputRead(Some(input)) => PollAction::Finish(
            Some(TerminalEvent::Input(input)),
        ),
        PollEvent::InputRead(None) => PollAction::Wait,
        PollEvent::SizeRead(size) => PollAction::Finish(Some(TerminalEvent::Resize(size))),
    }
}

/// Says what the owner of the terminal does next in a poll, after `event`.
///
/// Input at hand ends the poll at once. Otherwise the owner waits; an
/// interrupted wait is begun again, a failed one ends the poll with its
/// error, and one that ran out of time ends it with no event. Ready input
/// is read before a resize signal: an event ends the poll, and without one
/// the wait is begun again. A resize that was read ends the poll.
pub fn poll_step(event: PollEvent) -> (action: PollAction)
    ensures
        action == poll_action(event),
{
    match event {
        PollEvent::Started(Some(input)) => PollAction::Finish(Some(TerminalEvent::Input(input))),
        PollEvent::Started(None) => PollAction::Wait,
        PollEvent::Waited(WaitOutcome::Interrupted) => PollAction::Wait,
        PollEvent::Waited(WaitOutcome::Failed(code)) => PollAction::Fail(
            TerminalError::OsCall(code),
        ),
        PollEvent::Waited(WaitOutcome::TimedOut) => PollAction::Finish(None),
        PollEvent::Waited(WaitOutcome::Ready { input, signal }) => if input {
            PollAction::ReadInput
        } else if signal {
            PollAction::ReadSize
        } else {
            PollAction::Wait
        },
        PollEvent::InputRead(Some(input)) => PollAction::Finish(
            Some(TerminalEvent::Input(input)),
        ),
        PollEvent::InputRead(None) => PollAction::Wait,
        PollEvent::SizeRead(size) => PollAction::Finish(Some(TerminalEvent::Resize(size))),
    }
}

/// A span of time in seconds and nanoseconds, as a timeout is given and as a clock measures it.
#[derive(Debug, Clone, Copy, PartialEq, Eq, Structural)]
pub struct TimeSpan {
    /// The whole seconds.
    pub seconds: u64,
    /// The nanoseconds behind the whole seconds, less than a thousand million.
    pub nanoseconds: u32,
}

impl TimeSpan {
    /// The span in nanoseconds.
    pub open spec fn total(self) -> int {
        self.seconds * 1_000_000_000 + self.nanoseconds
    }

    /// Whether the nanoseconds are less than a second.
    pub open spec fn wf(self) -> bool {
        self.nanoseconds < 1_000_000_000
    }
}

/// What is left of `timeout` once `elapsed` has passed, as the seconds and
/// microseconds that a wait takes; nothing where more has passed than the timeout.
pub fn remaining_wait(timeout: TimeSpan, elapsed: TimeSpan) -> (left: (u64, u32))
    requires
        timeout.wf(),
        elapsed.wf(),
    ensures
        timeout.total() <= elapsed.total() ==> left == (0u64, 0u32),
        timeout.total() > elapsed.total() ==> left.0 == (timeout.total() - elapsed.total())
            / 1_000_000_000 && left.1 == ((timeout.total() - elapsed.total()) % 1_000_000_000)
            / 1000,
{
    if timeout.seconds < elapsed.seconds || (timeout.seconds == elapsed.seconds
        && timeout.nanoseconds <= elapsed.nanoseconds) {
        return (0, 0);
    }
    let (seconds, nanoseconds) = if timeout.nanoseconds >= elapsed.nanoseconds {
        (timeout.seconds - elapsed.seconds, timeout.nanoseconds - elapsed.nanoseconds)
    } else {
        (
            timeout.seconds - elapsed.seconds - 1,
            timeout.nanoseconds + (1_000_000_000 - elapsed.nanoseconds),
        )
    };
    assert(timeout.total() - elapsed.total() == seconds * 1_000_000_000 + nanoseconds);
    assert((seconds * 1_000_000_000 + nanoseconds) / 1_000_000_000 == seconds
        && (seconds * 1_000_000_000 + nanoseconds) % 1_000_000_000 == nanoseconds) by {
        vstd::arithmetic::div_mod::lemma_fundamental_div_mod_converse(
            seconds * 1_000_000_000 + nanoseconds,
            1_000_000_000,
            seconds as int,
            nanoseconds as int,
        );
    }
    (seconds, nanoseconds / 1000)
}

} // verus!
