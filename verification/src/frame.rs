//! The frame buffer: a grid of styled cells that is filled like a text sink
//! and composed from smaller frames.

use crate::error::TerminalError;
use crate::geometry::{TerminalPosition, TerminalSize};
use crate::style::{parse_style, TerminalStyle};
use crate::text::chars_of;
use std::collections::btree_map::Range;
use std::collections::BTreeMap;
use vstd::prelude::*;

verus! {

broadcast use {vstd::std_specs::btree::group_btree_axioms, vstd::laws_cmp::group_laws_cmp};

/// Estimates how many terminal columns a character takes.
///
/// An estimate looks at one character alone, so it cannot be right for tabs,
/// whose width depends on the column, nor for combining marks.
pub trait EstimateCharWidth {
    /// The width that the estimator promises to give to `c`, where it
    /// promises one. An estimator that says nothing here promises nothing.
    open spec fn promised_width(&self, c: char) -> Option<usize> {
        None
    }

    /// The number of columns that `c` takes on the terminal. A character of
    /// width zero is not shown.
    fn estimate_char_width(&self, c: char) -> (width: usize)
        ensures
            self.promised_width(c) matches Some(promised) ==> width == promised,
    ;
}

/// Whether `widths` may be the widths that `estimator` gives to the
/// characters of `text`, one for each: where the estimator promises a
/// width, it is that width.
pub open spec fn gives<W: EstimateCharWidth>(
    estimator: W,
    text: Seq<char>,
    widths: Seq<usize>,
) -> bool {
    &&& widths.len() == text.len()
    &&& forall|i: int|
        0 <= i < text.len() ==> (#[trigger] estimator.promised_width(text[i]) matches Some(
            promised,
        ) ==> widths[i] == promised)
}

/// An estimator that gives control characters no width and every other
/// character one column. It is wrong for wide characters such as CJK
/// ideographs and emoji.
#[derive(Debug, Default, Clone)]
pub struct FixedCharWidthEstimator;

/// Whether `c` is a control character: a code point of the category Cc.
pub open spec fn is_control(c: char) -> bool {
    c as u32 <= 0x1f || 0x7f <= c as u32 <= 0x9f
}

/// The width that `FixedCharWidthEstimator` gives to `c`.
pub open spec fn fixed_width(c: char) -> usize {
    if is_control(c) {
        0
    } else {
        1
    }
}

impl EstimateCharWidth for FixedCharWidthEstimator {
    open spec fn promised_width(&self, c: char) -> Option<usize> {
        Some(fixed_width(c))
    }

    fn estimate_char_width(&self, c: char) -> (width: usize) {
        let code: u32 = c as u32;
        if code <= 0x1f || (0x7f <= code && code <= 0x9f) {
            0
        } else {
            1
        }
    }
}

/// One cell of a frame: a character, its style, and the number of columns it takes.
#[derive(Debug, Clone, Copy, PartialEq, Eq, Structural)]
pub struct TerminalChar {
    /// The style in which the character is shown.
    pub style: TerminalStyle,
    /// The number of columns that the character takes, at least one.
    pub width: usize,
    /// The character.
    pub value: char,
}

impl TerminalChar {
    /// A space of one column in the given style.
    pub open spec fn spec_blank(style: TerminalStyle) -> Self {
        TerminalChar { style, width: 1, value: ' ' }
    }

    /// Makes a space of one column in the given style.
    #[verifier::when_used_as_spec(spec_blank)]
    pub fn blank(style: TerminalStyle) -> (cell: Self)
        ensures
            cell == Self::spec_blank(style),
    {
        TerminalChar { style, width: 1, value: ' ' }
    }
}

/// Whether `c` is an ASCII letter, which ends an escape sequence.
pub open spec fn is_ascii_letter(c: char) -> bool {
    0x41 <= c as u32 <= 0x5a || 0x61 <= c as u32 <= 0x7a
}

/// `n`, or the largest `usize` where `n` is larger.
pub open spec fn saturate(n: int) -> usize {
    if n <= usize::MAX {
        n as usize
    } else {
        usize::MAX
    }
}

/// The number of times that `c` occurs in `text`.
pub open spec fn count_char(text: Seq<char>, c: char) -> nat
    decreases text.len(),
{
    if text.len() == 0 {
        0
    } else {
        count_char(text.drop_last(), c) + if text.last() == c {
            1nat
        } else {
            0nat
        }
    }
}

/// What a frame is: its size, the cells that were put into it, the cursor
/// at which the next character goes, the style that the next character gets,
/// and the escape sequence that is being read, if one is.
///
/// The cursor saturates at the largest `usize`, a row and a column that lie
/// outside every frame.
pub struct FrameView {
    /// The size of the frame.
    pub size: TerminalSize,
    /// The cells of the frame, by the position at which each starts.
    pub cells: Map<TerminalPosition, TerminalChar>,
    /// The position at which the next character is written.
    pub cursor: TerminalPosition,
    /// The style that the next character gets.
    pub style: TerminalStyle,
    /// What was read of an escape sequence that did not end yet; empty
    /// outside escape sequences.
    pub pending: Seq<char>,
}

impl FrameView {
    /// Every cell starts inside the frame and takes at least one column.
    pub open spec fn wf(self) -> bool {
        forall|p: TerminalPosition| #[trigger]
            self.cells.contains_key(p) ==> self.size.spec_contains(p) && self.cells[p].width >= 1
    }

    /// No cell starts in the columns that a wider cell before it takes.
    /// Writing alone and drawing alone keep a frame so; a character written
    /// over what was drawn ahead of the cursor may break it, and the
    /// enumeration then passes over the cell that is covered.
    pub open spec fn shadow_free(self) -> bool {
        forall|p: TerminalPosition, q: TerminalPosition|
            #![trigger self.cells.contains_key(p), self.cells.contains_key(q)]
            self.cells.contains_key(p) && self.cells.contains_key(q) && p.row == q.row && p.col
                < q.col ==> p.col + self.cells[p].width <= q.col
    }

    /// Every cell ends at or before the cursor, as in a frame that was filled by writing alone.
    pub open spec fn behind_cursor(self) -> bool {
        forall|p: TerminalPosition| #[trigger]
            self.cells.contains_key(p) ==> p.row < self.cursor.row || (p.row == self.cursor.row
                && p.col + self.cells[p].width <= self.cursor.col)
    }

    /// The empty frame of the given size.
    pub open spec fn empty(size: TerminalSize) -> Self {
        FrameView {
            size,
            cells: Map::empty(),
            cursor: TerminalPosition { row: 0, col: 0 },
            style: TerminalStyle::spec_new(),
            pending: Seq::empty(),
        }
    }

    /// Whether an escape sequence is being read.
    pub open spec fn in_escape(self) -> bool {
        self.pending.len() > 0
    }

    /// Whether a character of the given width has room at the cursor.
    pub open spec fn fits(self, width: usize) -> bool {
        self.cursor.row < self.size.rows && self.cursor.col + width <= self.size.cols
    }

    /// The frame after a line break: the cursor goes to the start of the next row.
    pub open spec fn newline(self) -> Self {
        FrameView {
            cursor: TerminalPosition { row: saturate(self.cursor.row + 1), col: 0 },
            ..self
        }
    }

    /// The frame after a character of the given width was written at the
    /// cursor. A character of width zero changes nothing. Any other becomes
    /// a cell at the cursor where it has room, and moves the cursor by its
    /// width whether it has room or not.
    pub open spec fn put(self, value: char, width: usize) -> Self {
        if width == 0 {
            self
        } else {
            FrameView {
                cells: if self.fits(width) {
                    self.cells.insert(
                        self.cursor,
                        TerminalChar { style: self.style, width, value },
                    )
                } else {
                    self.cells
                },
                cursor: TerminalPosition {
                    row: self.cursor.row,
                    col: saturate(self.cursor.col + width),
                },
                ..self
            }
        }
    }

    /// The frame after one more character of an escape sequence, and whether
    /// all went well. An ASCII letter ends the sequence: it then becomes the
    /// current style, or, where it is the canonical form of no style, it is
    /// dropped and all did not go well.
    pub open spec fn escape(self, c: char) -> (Self, bool) {
        let sequence = self.pending.push(c);
        if is_ascii_letter(c) {
            match parse_style(sequence) {
                Some(style) => (FrameView { style, pending: Seq::empty(), ..self }, true),
                None => (FrameView { pending: Seq::empty(), ..self }, false),
            }
        } else {
            (FrameView { pending: sequence, ..self }, true)
        }
    }

    /// The frame after the text sink took the character `c`, whose width is
    /// `width`, and whether all went well. The width counts only for a
    /// character that is shown: one outside escape sequences that is neither
    /// ESC nor a line break.
    pub open spec fn step(self, c: char, width: usize) -> (Self, bool) {
        if self.in_escape() {
            self.escape(c)
        } else if c == '\x1b' {
            (FrameView { pending: seq![c], ..self }, true)
        } else if c == '\n' {
            (self.newline(), true)
        } else {
            (self.put(c, width), true)
        }
    }

    /// Whether the cell at `p` is the one that starts nearest before
    /// `position`, in row-major order.
    pub open spec fn is_nearest_before(self, p: TerminalPosition, position: TerminalPosition) -> bool {
        &&& self.cells.contains_key(p)
        &&& p.spec_precedes(position)
        &&& forall|q: TerminalPosition| #[trigger]
            self.cells.contains_key(q) && q.spec_precedes(position) ==> q == p || q.spec_precedes(
                p,
            )
    }

    /// Whether the cell at `p` covers `position` with one of the columns
    /// behind its first: it is the nearest cell before `position`, stands on
    /// the same row, and is wide enough to reach it.
    pub open spec fn is_covering(self, p: TerminalPosition, position: TerminalPosition) -> bool {
        &&& self.is_nearest_before(p, position)
        &&& p.row == position.row
        &&& position.col < p.col + self.cells[p].width
    }

    /// Whether some cell covers `position` with one of the columns behind its first.
    pub open spec fn is_shadowed(self, position: TerminalPosition) -> bool {
        exists|p: TerminalPosition| self.is_covering(p, position)
    }

    /// What the frame holds at `position`: the cell that starts there;
    /// nothing where a wider cell before it covers the position; and
    /// otherwise a blank in the default style.
    pub open spec fn char_at(self, position: TerminalPosition) -> Option<TerminalChar> {
        if self.cells.contains_key(position) {
            Some(self.cells[position])
        } else if self.is_shadowed(position) {
            None
        } else {
            Some(TerminalChar::spec_blank(TerminalStyle::spec_new()))
        }
    }

    /// The frame after `cell` was placed at `target`. Where no cell starts
    /// at `target`, the cell that covers it with a column behind its first
    /// is taken out; the cells that start in the columns that the new cell
    /// takes are taken out; and the new cell goes in.
    pub open spec fn place(self, target: TerminalPosition, cell: TerminalChar) -> Self {
        let covering = Set::new(
            |p: TerminalPosition| !self.cells.contains_key(target) && self.is_covering(p, target),
        );
        let under = Set::new(
            |q: TerminalPosition|
                q.row == target.row && target.col <= q.col < target.col + cell.width,
        );
        FrameView {
            cells: self.cells.remove_keys(covering).remove_keys(under).insert(target, cell),
            ..self
        }
    }

    /// The position of this frame on which the position `q` of a frame
    /// drawn at `at` falls, if it falls inside this frame.
    pub open spec fn target(self, at: TerminalPosition, q: TerminalPosition) -> Option<
        TerminalPosition,
    > {
        if at.row + q.row < self.size.rows && at.col + q.col < self.size.cols {
            Some(TerminalPosition { row: (at.row + q.row) as usize, col: (at.col + q.col) as usize })
        } else {
            None
        }
    }

    /// The frame after the cells `source`, each with its position in a frame
    /// drawn at `at`, were placed one after the other. A cell that falls
    /// outside this frame is passed over.
    pub open spec fn draw_cells(
        self,
        at: TerminalPosition,
        source: Seq<(TerminalPosition, TerminalChar)>,
    ) -> Self
        decreases source.len(),
    {
        if source.len() == 0 {
            self
        } else {
            let before = self.draw_cells(at, source.drop_last());
            match self.target(at, source.last().0) {
                Some(target) => before.place(target, source.last().1),
                None => before,
            }
        }
    }

    /// The frame after `source` was drawn onto it at `at`: every cell that
    /// `source` enumerates is placed, blanks too. The cursor, the style and
    /// the escape sequence being read stay as they are.
    pub open spec fn draw(self, at: TerminalPosition, source: FrameView) -> Self {
        self.draw_cells(at, source.enumerate())
    }

    /// What the enumeration of the frame gives at `p`, where no cell before
    /// `p` covers it: the cell that starts there, or a blank. The blank has
    /// the current style from the cursor on, and before the cursor the style
    /// `seen` of the last cell that the enumeration gave.
    pub open spec fn cell_or_blank(self, p: TerminalPosition, seen: TerminalStyle) -> TerminalChar {
        if self.cells.contains_key(p) {
            self.cells[p]
        } else if p.spec_precedes(self.cursor) {
            TerminalChar::spec_blank(seen)
        } else {
            TerminalChar::spec_blank(self.style)
        }
    }

    /// The style of the last cell that the enumeration gave, once it has given what stands at `p`.
    pub open spec fn seen_after(self, p: TerminalPosition, seen: TerminalStyle) -> TerminalStyle {
        if self.cells.contains_key(p) {
            self.cells[p].style
        } else {
            seen
        }
    }

    /// The column at which the enumeration goes on behind `cell`, which
    /// stands at column `col`: the column behind the last that the cell
    /// takes, and the end of the row where the cell reaches past it.
    pub open spec fn column_behind(self, col: int, cell: TerminalChar) -> int {
        if cell.width < 1 {
            col + 1
        } else if col + cell.width <= self.size.cols {
            col + cell.width
        } else {
            self.size.cols as int
        }
    }

    /// The enumeration of the frame from row `row` and column `col` on, in
    /// row-major order, where `seen` is the style of the last cell given
    /// before. Each position gives its cell or a blank, and the columns
    /// that a cell takes behind its first are passed over.
    pub open spec fn scan_from(self, row: int, col: int, seen: TerminalStyle) -> Seq<
        (TerminalPosition, TerminalChar),
    >
        decreases self.size.rows - row, self.size.cols - col,
    {
        if row < 0 || col < 0 || row >= self.size.rows {
            Seq::empty()
        } else if col >= self.size.cols {
            self.scan_from(row + 1, 0, seen)
        } else {
            let p = TerminalPosition { row: row as usize, col: col as usize };
            let cell = self.cell_or_blank(p, seen);
            seq![(p, cell)] + self.scan_from(
                row,
                self.column_behind(col, cell),
                self.seen_after(p, seen),
            )
        }
    }

    /// The enumeration of the frame: every position of its size in row-major
    /// order with the cell that starts there or a blank, less the positions
    /// that the cell before them covers.
    pub open spec fn enumerate(self) -> Seq<(TerminalPosition, TerminalChar)> {
        self.scan_from(0, 0, TerminalStyle::spec_new())
    }

    /// Whether the text sink takes every line break of `text` as a line
    /// break: none of them stands inside an escape sequence, nor behind an
    /// escape sequence at which the sink stops.
    pub open spec fn takes_line_breaks(self, text: Seq<char>, widths: Seq<usize>) -> bool {
        forall|i: int|
            0 <= i < text.len() && text[i] == '\n' ==> {
                let before = #[trigger] self.write(text.take(i), widths.take(i));
                before.1 && !before.0.in_escape()
            }
    }

    /// The frame after the text sink took `text`, character by character,
    /// with `widths[i]` the width of `text[i]`, and whether all went well.
    /// The sink stops at the first escape sequence that is no style.
    pub open spec fn write(self, text: Seq<char>, widths: Seq<usize>) -> (Self, bool)
        decreases text.len(),
    {
        if text.len() == 0 {
            (self, true)
        } else {
            let (before, ok) = self.write(text.drop_last(), widths.drop_last());
            if ok {
                before.step(text.last(), widths.last())
            } else {
                (before, false)
            }
        }
    }
}

/// The type of the iterator that `BTreeMap::range` returns.
#[verifier::external_type_specification]
#[verifier::external_body]
#[verifier::reject_recursive_types(K)]
#[verifier::reject_recursive_types(V)]
pub struct ExRange<'a, K, V>(Range<'a, K, V>);

/// The entries that a range over the cells of a frame has yet to give, in
/// the order in which it gives them from its front.
pub uninterp spec fn range_entries(range: Range<'_, (usize, usize), TerminalChar>) -> Seq<
    ((usize, usize), TerminalChar),
>;

/// The order of the keys under which cells are stored: by row, then by column.
pub open spec fn key_before(a: (usize, usize), b: (usize, usize)) -> bool {
    a.0 < b.0 || (a.0 == b.0 && a.1 < b.1)
}

/// `BTreeMap::range` with an upper bound that is left out: the range gives
/// the entries of the map whose key comes before `bound`, each once, in
/// ascending order of the keys.
#[verifier::external_body]
fn entries_before<'a>(data: &'a BTreeMap<(usize, usize), TerminalChar>, bound: (usize, usize)) -> (range:
    Range<'a, (usize, usize), TerminalChar>)
    ensures
        forall|i: int, j: int|
            0 <= i < j < range_entries(range).len() ==> key_before(
                #[trigger] range_entries(range)[i].0,
                #[trigger] range_entries(range)[j].0,
            ),
        forall|i: int|
            0 <= i < range_entries(range).len() ==> {
                let entry = #[trigger] range_entries(range)[i];
                key_before(entry.0, bound) && data@.contains_key(entry.0) && data@[entry.0]
                    == entry.1
            },
        forall|key: (usize, usize)|
            #[trigger] data@.contains_key(key) && key_before(key, bound) ==> exists|i: int|
                0 <= i < range_entries(range).len() && #[trigger] range_entries(range)[i].0 == key,
{
    data.range(..bound)
}

/// `next_back` on a range: it takes the last entry off the range and gives
/// a copy of it, or gives nothing where the range has no entry left.
#[verifier::external_body]
fn take_last(range: &mut Range<'_, (usize, usize), TerminalChar>) -> (entry: Option<
    ((usize, usize), TerminalChar),
>)
    ensures
        range_entries(*old(range)).len() == 0 ==> entry.is_none() && range_entries(*final(range))
            == range_entries(*old(range)),
        range_entries(*old(range)).len() > 0 ==> entry == Some(range_entries(*old(range)).last())
            && range_entries(*final(range)) == range_entries(*old(range)).drop_last(),
{
    range.next_back().map(|(key, cell)| (*key, *cell))
}

/// The cells of a frame as they are stored, by row and column, read as a map by position.
pub open spec fn cells_of(data: Map<(usize, usize), TerminalChar>) -> Map<
    TerminalPosition,
    TerminalChar,
> {
    Map::new(
        |p: TerminalPosition| data.contains_key((p.row, p.col)),
        |p: TerminalPosition| data[(p.row, p.col)],
    )
}

/// A frame buffer: what a terminal is to show, as a sparse grid of styled
/// cells. Text is written into it at a cursor; style escape sequences in the
/// text set the style of what follows. A position without a cell shows as a
/// blank.
#[derive(Debug, Default, Clone)]
pub struct TerminalFrame<W = FixedCharWidthEstimator> {
    size: TerminalSize,
    data: BTreeMap<(usize, usize), TerminalChar>,
    tail: TerminalPosition,
    current_style: TerminalStyle,
    escape_sequence: Vec<char>,
    char_width_estimator: W,
}

impl<W> View for TerminalFrame<W> {
    type V = FrameView;

    closed spec fn view(&self) -> FrameView {
        FrameView {
            size: self.size,
            cells: cells_of(self.data@),
            cursor: self.tail,
            style: self.current_style,
            pending: self.escape_sequence@,
        }
    }
}

impl<W: Default> TerminalFrame<W> {
    /// Makes an empty frame of the given size, with the default width estimator.
    pub fn new(size: TerminalSize) -> (frame: Self)
        ensures
            frame@ == FrameView::empty(size),
            frame.wf(),
    {
        Self::with_char_width_estimator(size, W::default())
    }
}

impl<W> TerminalFrame<W> {
    /// Whether the frame is well formed: every cell starts inside the frame
    /// and takes at least one column.
    pub open spec fn wf(&self) -> bool {
        self@.wf()
    }

    /// The width estimator of the frame.
    pub closed spec fn estimator(&self) -> W {
        self.char_width_estimator
    }

    /// Makes an empty frame of the given size, with the given width estimator.
    pub fn with_char_width_estimator(size: TerminalSize, char_width_estimator: W) -> (frame: Self)
        ensures
            frame@ == FrameView::empty(size),
            frame.wf(),
            frame.estimator() == char_width_estimator,
    {
        let frame = Self {
            size,
            data: BTreeMap::new(),
            tail: TerminalPosition { row: 0, col: 0 },
            current_style: TerminalStyle::new(),
            escape_sequence: Vec::new(),
            char_width_estimator,
        };
        assert(frame@.cells =~= Map::<TerminalPosition, TerminalChar>::empty());
        frame
    }

    /// The size of the frame.
    pub fn size(&self) -> (size: TerminalSize)
        ensures
            size == self@.size,
    {
        self.size
    }

    /// The cursor: the position at which the next character is written.
    pub fn cursor(&self) -> (cursor: TerminalPosition)
        ensures
            cursor == self@.cursor,
    {
        self.tail
    }

    /// The same frame with the fixed width estimator, for the renderer,
    /// which takes frames of that one kind.
    pub fn finish(self) -> (frame: TerminalFrame<FixedCharWidthEstimator>)
        ensures
            frame@ == self@,
    {
        TerminalFrame {
            size: self.size,
            data: self.data,
            tail: self.tail,
            current_style: self.current_style,
            escape_sequence: self.escape_sequence,
            char_width_estimator: FixedCharWidthEstimator,
        }
    }

    /// Finds the cell that covers `position` with one of the columns behind
    /// its first, and returns the position at which that cell starts.
    fn covering_cell(&self, position: TerminalPosition) -> (found: Option<TerminalPosition>)
        ensures
            found matches Some(p) ==> self@.is_covering(p, position),
            found.is_none() ==> !self@.is_shadowed(position),
    {
        let mut range = entries_before(&self.data, (position.row, position.col));
        let ghost entries = range_entries(range);
        match take_last(&mut range) {
            Some((key, cell)) => {
                let p = TerminalPosition { row: key.0, col: key.1 };
                proof {
                    assert forall|q: TerminalPosition| #[trigger]
                        self@.cells.contains_key(q) && q.spec_precedes(position) implies q == p
                        || q.spec_precedes(p) by {
                        let k = (q.row, q.col);
                        assert(self.data@.contains_key(k) && key_before(
                            k,
                            (position.row, position.col),
                        ));
                        let i = choose|i: int| 0 <= i < entries.len() && #[trigger] entries[i].0 == k;
                        if i < entries.len() - 1 {
                            assert(key_before(entries[i].0, entries[entries.len() - 1].0));
                        }
                    }
                    assert(self@.is_nearest_before(p, position));
                    lemma_nearest_before_unique(self@, p, position);
                }
                if key.0 == position.row && cell.width > position.col - key.1 {
                    Some(p)
                } else {
                    None
                }
            },
            None => {
                proof {
                    assert forall|q: TerminalPosition| !self@.is_covering(q, position) by {
                        if self@.is_nearest_before(q, position) {
                            let k = (q.row, q.col);
                            assert(self.data@.contains_key(k) && key_before(
                                k,
                                (position.row, position.col),
                            ));
                        }
                    }
                }
                None
            },
        }
    }

    /// What the frame holds at `position`: the cell that starts there;
    /// nothing where a wider cell before it covers the position; and
    /// otherwise a blank in the default style.
    pub fn get_char(&self, position: TerminalPosition) -> (cell: Option<TerminalChar>)
        ensures
            cell == self@.char_at(position),
    {
        match self.data.get(&(position.row, position.col)) {
            Some(cell) => Some(*cell),
            None => match self.covering_cell(position) {
                Some(_) => None,
                None => Some(TerminalChar::blank(TerminalStyle::new())),
            },
        }
    }

    /// The cells of the frame in row-major order, a cell or a blank for
    /// every position of its size that no cell before it covers.
    pub fn chars(&self) -> (cells: Vec<(TerminalPosition, TerminalChar)>)
        requires
            self.wf(),
        ensures
            cells@ == self@.enumerate(),
    {
        let mut cells: Vec<(TerminalPosition, TerminalChar)> = Vec::new();
        let mut seen = TerminalStyle::new();
        let mut row: usize = 0;
        let mut col: usize = 0;
        assert(cells@ + self@.scan_from(0, 0, seen) =~= self@.enumerate());
        while row < self.size.rows
            invariant
                self.wf(),
                self@.enumerate() == cells@ + self@.scan_from(row as int, col as int, seen),
            decreases self.size.rows - row, self.size.cols - col,
        {
            if col >= self.size.cols {
                row += 1;
                col = 0;
            } else {
                let p = TerminalPosition { row, col };
                let ghost seen_before = seen;
                let cell = match self.data.get(&(row, col)) {
                    Some(cell) => {
                        seen = cell.style;
                        *cell
                    },
                    None => TerminalChar::blank(
                        if p.precedes(self.tail) {
                            seen
                        } else {
                            self.current_style
                        },
                    ),
                };
                assert(cell == self@.cell_or_blank(p, seen_before));
                assert(seen == self@.seen_after(p, seen_before));
                let ghost before = cells@;
                cells.push((p, cell));
                let next: usize = if cell.width <= self.size.cols - col {
                    col + cell.width
                } else {
                    self.size.cols
                };
                proof {
                    assert(cell.width >= 1);
                    assert(next == self@.column_behind(col as int, cell));
                    lemma_push_concat(
                        before,
                        (p, cell),
                        self@.scan_from(row as int, next as int, seen),
                    );
                }
                col = next;
            }
        }
        assert(self@.scan_from(row as int, col as int, seen) =~= Seq::empty());
        assert(cells@ + Seq::<(TerminalPosition, TerminalChar)>::empty() =~= cells@);
        cells
    }

    /// Places `cell` at `target`, taking out the cells that the new cell overlaps.
    fn place_cell(&mut self, target: TerminalPosition, cell: TerminalChar)
        requires
            old(self).wf(),
            old(self)@.size.spec_contains(target),
            cell.width >= 1,
        ensures
            final(self)@ == old(self)@.place(target, cell),
            final(self).wf(),
            final(self).estimator() == old(self).estimator(),
    {
        let ghost covering = Set::new(
            |p: TerminalPosition|
                !old(self)@.cells.contains_key(target) && old(self)@.is_covering(p, target),
        );
        if self.data.get(&(target.row, target.col)).is_none() {
            match self.covering_cell(target) {
                Some(p) => {
                    proof {
                        lemma_nearest_before_unique(self@, p, target);
                    }
                    self.data.remove(&(p.row, p.col));
                },
                None => {},
            }
        }
        assert(self@.cells =~= old(self)@.cells.remove_keys(covering));
        let ghost uncovered = self@.cells;
        let mut i: usize = 0;
        while i < cell.width && i < self.size.cols - target.col
            invariant
                self@.size == old(self)@.size,
                self@.cursor == old(self)@.cursor,
                self@.style == old(self)@.style,
                self@.pending == old(self)@.pending,
                self@.size.spec_contains(target),
                self.estimator() == old(self).estimator(),
                old(self)@.wf(),
                uncovered == old(self)@.cells.remove_keys(covering),
                i <= self.size.cols - target.col,
                i <= cell.width,
                self@.cells == uncovered.remove_keys(
                    Set::new(
                        |q: TerminalPosition|
                            q.row == target.row && target.col <= q.col < target.col + i,
                    ),
                ),
            decreases self.size.cols - target.col - i,
        {
            let ghost before = self@.cells;
            self.data.remove(&(target.row, target.col + i));
            assert(self@.cells =~= before.remove(
                TerminalPosition { row: target.row, col: (target.col + i) as usize },
            ));
            assert(self@.cells =~= uncovered.remove_keys(
                Set::new(
                    |q: TerminalPosition|
                        q.row == target.row && target.col <= q.col < target.col + i + 1,
                ),
            ));
            i += 1;
        }
        let ghost under = Set::new(
            |q: TerminalPosition|
                q.row == target.row && target.col <= q.col < target.col + cell.width,
        );
        proof {
            let swept = Set::new(
                |q: TerminalPosition| q.row == target.row && target.col <= q.col < target.col + i,
            );
            assert forall|q: TerminalPosition|
                uncovered.remove_keys(swept).contains_key(q) == uncovered.remove_keys(
                    under,
                ).contains_key(q) by {
                if uncovered.contains_key(q) {
                    assert(old(self)@.cells.contains_key(q));
                    assert(old(self)@.size.spec_contains(q));
                }
            }
            assert(uncovered.remove_keys(swept) =~= uncovered.remove_keys(under));
        }
        self.data.insert((target.row, target.col), cell);
        assert(self@.cells =~= uncovered.remove_keys(under).insert(target, cell));
    }

    /// Draws `frame` onto this frame with its top-left corner at `position`.
    ///
    /// Every cell that `frame` enumerates, blanks too, is placed at its
    /// position moved by `position`; a cell that falls outside this frame is
    /// passed over. Where a placed cell overlaps cells of this frame, those
    /// are taken out. The cursor of this frame stays where it is.
    pub fn draw<X>(&mut self, position: TerminalPosition, frame: &TerminalFrame<X>)
        requires
            old(self).wf(),
            frame.wf(),
        ensures
            final(self)@ == old(self)@.draw(position, frame@),
            final(self).wf(),
            final(self).estimator() == old(self).estimator(),
    {
        let cells = frame.chars();
        proof {
            lemma_scan_cells(frame@, 0, 0, TerminalStyle::spec_new());
        }
        let mut i: usize = 0;
        while i < cells.len()
            invariant
                i <= cells@.len(),
                cells@ == frame@.enumerate(),
                forall|k: int| 0 <= k < cells@.len() ==> (#[trigger] cells@[k]).1.width >= 1,
                self.wf(),
                self.estimator() == old(self).estimator(),
                self@ == old(self)@.draw_cells(position, cells@.take(i as int)),
            decreases cells@.len() - i,
        {
            let (q, cell) = cells[i];
            proof {
                assert(cells@.take(i + 1).drop_last() =~= cells@.take(i as int));
                lemma_draw_cells_keeps(old(self)@, position, cells@.take(i as int));
            }
            if q.row < self.size.rows && position.row < self.size.rows - q.row && q.col
                < self.size.cols && position.col < self.size.cols - q.col {
                let target = TerminalPosition { row: position.row + q.row, col: position.col + q.col };
                self.place_cell(target, cell);
            }
            i += 1;
        }
        assert(cells@.take(i as int) =~= cells@);
    }

    /// Writes a character of the given width at the cursor: nothing for
    /// width zero; otherwise a cell where there is room, and the cursor
    /// moves by the width.
    fn put_char(&mut self, value: char, width: usize)
        requires
            old(self).wf(),
        ensures
            final(self)@ == old(self)@.put(value, width),
            final(self).wf(),
            final(self).estimator() == old(self).estimator(),
    {
        if width == 0 {
            return ;
        }
        if self.tail.row < self.size.rows && width <= self.size.cols && self.tail.col
            <= self.size.cols - width {
            let cell = TerminalChar { style: self.current_style, width, value };
            self.data.insert((self.tail.row, self.tail.col), cell);
            assert(self@.cells =~= old(self)@.cells.insert(old(self)@.cursor, cell));
        }
        self.tail.col = if self.tail.col <= usize::MAX - width {
            self.tail.col + width
        } else {
            usize::MAX
        };
    }

    /// Hands one character to the text sink, with the width to use for it
    /// where it is shown.
    ///
    /// Inside an escape sequence the character joins the sequence, and an
    /// ASCII letter ends it: the sequence then sets the current style, or is
    /// an error where it is the canonical form of no style. ESC starts an
    /// escape sequence. A line break moves the cursor to the start of the
    /// next row. Any other character is shown with the given width.
    pub fn write_with_width(&mut self, c: char, width: usize) -> (result: Result<
        (),
        TerminalError,
    >)
        requires
            old(self).wf(),
        ensures
            final(self).wf(),
            final(self).estimator() == old(self).estimator(),
            final(self)@ == old(self)@.step(c, width).0,
            result.is_ok() == old(self)@.step(c, width).1,
            result matches Err(e) ==> e == TerminalError::InvalidStyleEscape,
            final(self)@.size == old(self)@.size,
            shown(old(self)@, c) && width == 0 ==> final(self)@ == old(self)@,
            shown(old(self)@, c) && width > 0 && old(self)@.fits(width) ==> {
                &&& final(self)@.cells == old(self)@.cells.insert(
                    old(self)@.cursor,
                    TerminalChar { style: old(self)@.style, width, value: c },
                )
                &&& final(self)@.cursor.row == old(self)@.cursor.row
                &&& final(self)@.cursor.col == old(self)@.cursor.col + width
            },
    {
        if self.escape_sequence.len() > 0 {
            self.escape_sequence.push(c);
            let code: u32 = c as u32;
            if (0x41 <= code && code <= 0x5a) || (0x61 <= code && code <= 0x7a) {
                let parsed = TerminalStyle::parse_chars(self.escape_sequence.as_slice());
                self.escape_sequence.clear();
                match parsed {
                    Some(style) => {
                        self.current_style = style;
                        Ok(())
                    },
                    None => Err(TerminalError::InvalidStyleEscape),
                }
            } else {
                Ok(())
            }
        } else if c == '\x1b' {
            self.escape_sequence.push(c);
            assert(self.escape_sequence@ =~= seq![c]);
            Ok(())
        } else if c == '\n' {
            let row: usize = if self.tail.row < usize::MAX {
                self.tail.row + 1
            } else {
                usize::MAX
            };
            self.tail = TerminalPosition { row, col: 0 };
            Ok(())
        } else {
            self.put_char(c, width);
            Ok(())
        }
    }
}

impl<W: EstimateCharWidth> TerminalFrame<W> {
    /// Writes `text` into the frame, character by character, as
    /// `write_with_width` does, with the width that the estimator of the
    /// frame gives to each character that is shown. It stops with an error
    /// at the first escape sequence that is the canonical form of no style.
    pub fn write_str(&mut self, text: &str) -> (result: Result<(), TerminalError>)
        requires
            old(self).wf(),
        ensures
            final(self).wf(),
            final(self)@.size == old(self)@.size,
            forall|p: TerminalPosition| #[trigger]
                final(self)@.cells.contains_key(p)
                    ==> final(self)@.size.spec_to_region().spec_contains(p),
            final(self).estimator() == old(self).estimator(),
            exists|widths: Seq<usize>|
                gives(old(self).estimator(), text@, widths) && #[trigger] old(self)@.write(
                    text@,
                    widths,
                ) == (final(self)@, result.is_ok()),
            result matches Err(e) ==> e == TerminalError::InvalidStyleEscape,
    {
        let chars = chars_of(text);
        let ghost mut widths: Seq<usize> = Seq::empty();
        let mut i: usize = 0;
        while i < chars.len()
            invariant
                i <= chars@.len(),
                chars@ == text@,
                widths.len() == i,
                self.estimator() == old(self).estimator(),
                forall|j: int|
                    0 <= j < i ==> (#[trigger] self.estimator().promised_width(
                        chars@[j],
                    ) matches Some(promised) ==> widths[j] == promised),
                self.wf(),
                self@.size == old(self)@.size,
                old(self)@.write(chars@.take(i as int), widths) == (self@, true),
            decreases chars@.len() - i,
        {
            let c = chars[i];
            let width = if self.escape_sequence.len() == 0 && c != '\x1b' && c != '\n' {
                self.char_width_estimator.estimate_char_width(c)
            } else {
                0
            };
            let ghost counted = match self.estimator().promised_width(c) {
                Some(promised) => promised,
                None => width,
            };
            let step = self.write_with_width(c, width);
            proof {
                assert(chars@.take(i + 1).drop_last() =~= chars@.take(i as int));
                assert(widths.push(counted).drop_last() =~= widths);
                widths = widths.push(counted);
            }
            match step {
                Ok(()) => {},
                Err(e) => {
                    proof {
                        let padded = Seq::new(
                            chars@.len(),
                            |j: int|
                                if j <= i {
                                    widths[j]
                                } else {
                                    match self.estimator().promised_width(chars@[j]) {
                                        Some(promised) => promised,
                                        None => 0usize,
                                    }
                                },
                        );
                        assert(padded.take(i + 1) =~= widths);
                        lemma_write_stops(old(self)@, chars@, padded, i + 1);
                    }
                    return Err(e);
                },
            }
            i += 1;
        }
        assert(chars@.take(i as int) =~= chars@);
        Ok(())
    }
}

/// Pushing an item and joining a sequence is joining the item in front of the sequence.
proof fn lemma_push_concat<T>(a: Seq<T>, x: T, b: Seq<T>)
    ensures
        a.push(x) + b == a + (seq![x] + b),
{
    assert(a.push(x) + b =~= a + (seq![x] + b));
}

/// Drawing cells changes the cells of a frame and nothing else.
proof fn lemma_draw_cells_keeps(
    view: FrameView,
    at: TerminalPosition,
    source: Seq<(TerminalPosition, TerminalChar)>,
)
    ensures
        view.draw_cells(at, source).size == view.size,
        view.draw_cells(at, source).cursor == view.cursor,
        view.draw_cells(at, source).style == view.style,
        view.draw_cells(at, source).pending == view.pending,
    decreases source.len(),
{
    if source.len() > 0 {
        lemma_draw_cells_keeps(view, at, source.drop_last());
    }
}

/// Whether the cell `a` comes before the cell `b` and leaves it alone: `a`
/// stands on a row above, or on the same row with all its columns before `b`.
pub open spec fn clear_of(a: (TerminalPosition, TerminalChar), b: (TerminalPosition, TerminalChar)) -> bool {
    a.0.row < b.0.row || (a.0.row == b.0.row && a.0.col + a.1.width <= b.0.col)
}

/// What the enumeration of a well-formed frame gives from a position on:
/// cells inside the frame, at or behind that position, each at least one
/// column wide, and each clear of all that follow it.
pub proof fn lemma_scan_cells(view: FrameView, row: int, col: int, seen: TerminalStyle)
    requires
        view.wf(),
        0 <= row,
        0 <= col,
    ensures
        forall|k: int|
            0 <= k < view.scan_from(row, col, seen).len() ==> {
                let item = #[trigger] view.scan_from(row, col, seen)[k];
                &&& view.size.spec_contains(item.0)
                &&& item.1.width >= 1
                &&& (item.0.row > row || (item.0.row == row && item.0.col >= col))
            },
        forall|i: int, j: int|
            0 <= i < j < view.scan_from(row, col, seen).len() ==> clear_of(
                #[trigger] view.scan_from(row, col, seen)[i],
                #[trigger] view.scan_from(row, col, seen)[j],
            ),
    decreases view.size.rows - row, view.size.cols - col,
{
    if row >= view.size.rows {
    } else if col >= view.size.cols {
        lemma_scan_cells(view, row + 1, 0, seen);
    } else {
        let p = TerminalPosition { row: row as usize, col: col as usize };
        let cell = view.cell_or_blank(p, seen);
        let next = view.column_behind(col, cell);
        let rest = view.scan_from(row, next, view.seen_after(p, seen));
        lemma_scan_cells(view, row, next, view.seen_after(p, seen));
        let all = view.scan_from(row, col, seen);
        assert(all == seq![(p, cell)] + rest);
        assert forall|k: int| 0 <= k < all.len() implies {
            let item = #[trigger] all[k];
            &&& view.size.spec_contains(item.0)
            &&& item.1.width >= 1
            &&& (item.0.row > row || (item.0.row == row && item.0.col >= col))
        } by {
            if k > 0 {
                assert(all[k] == rest[k - 1]);
            }
        }
        assert forall|i: int, j: int| 0 <= i < j < all.len() implies clear_of(
            #[trigger] all[i],
            #[trigger] all[j],
        ) by {
            assert(all[j] == rest[j - 1]);
            if i > 0 {
                assert(all[i] == rest[i - 1]);
            }
        }
    }
}

/// No two cells are both the nearest before a position.
proof fn lemma_nearest_before_unique(view: FrameView, p: TerminalPosition, position: TerminalPosition)
    requires
        view.is_nearest_before(p, position),
    ensures
        forall|q: TerminalPosition| view.is_nearest_before(q, position) ==> q == p,
{
    assert forall|q: TerminalPosition| view.is_nearest_before(q, position) implies q == p by {
        assert(view.cells.contains_key(q) && q.spec_precedes(position));
        assert(view.cells.contains_key(p) && p.spec_precedes(position));
    }
}

/// Once the text sink has stopped at an escape sequence that is no style,
/// the text behind it changes nothing.
proof fn lemma_write_stops(view: FrameView, text: Seq<char>, widths: Seq<usize>, k: int)
    requires
        0 <= k <= text.len(),
        widths.len() == text.len(),
        !view.write(text.take(k), widths.take(k)).1,
    ensures
        view.write(text, widths) == view.write(text.take(k), widths.take(k)),
    decreases text.len(),
{
    if k == text.len() {
        assert(text.take(k) =~= text);
        assert(widths.take(k) =~= widths);
    } else {
        assert(text.drop_last().take(k) =~= text.take(k));
        assert(widths.drop_last().take(k) =~= widths.take(k));
        lemma_write_stops(view, text.drop_last(), widths.drop_last(), k);
    }
}

/// Whether the text sink shows `c` as a character of the frame `view`: it is
/// outside escape sequences and is neither ESC nor a line break.
pub open spec fn shown(view: FrameView, c: char) -> bool {
    !view.in_escape() && c != '\x1b' && c != '\n'
}

/// Writing text moves the cursor down by one row for every line break in
/// it, and text that ends with a line break leaves the cursor in the first
/// column. This holds of text whose line breaks the sink takes as such, as
/// long as the row can be counted.
pub proof fn lemma_write_line_breaks(view: FrameView, text: Seq<char>, widths: Seq<usize>)
    requires
        widths.len() == text.len(),
        view.takes_line_breaks(text, widths),
        view.cursor.row + count_char(text, '\n') <= usize::MAX,
    ensures
        view.write(text, widths).0.cursor.row == view.cursor.row + count_char(text, '\n'),
        text.len() > 0 && text.last() == '\n' ==> view.write(text, widths).0.cursor.col == 0,
    decreases text.len(),
{
    if text.len() > 0 {
        let shorter = text.drop_last();
        let shorter_widths = widths.drop_last();
        assert(view.takes_line_breaks(shorter, shorter_widths)) by {
            assert forall|i: int| 0 <= i < shorter.len() && shorter[i] == '\n' implies {
                let before = #[trigger] view.write(shorter.take(i), shorter_widths.take(i));
                before.1 && !before.0.in_escape()
            } by {
                assert(shorter.take(i) =~= text.take(i));
                assert(shorter_widths.take(i) =~= widths.take(i));
                assert(text[i] == '\n');
            }
        }
        lemma_write_line_breaks(view, shorter, shorter_widths);
        if text.last() == '\n' {
            let i = text.len() - 1;
            assert(text.take(i) =~= shorter);
            assert(widths.take(i) =~= shorter_widths);
            assert(text[i] == '\n');
            let before = view.write(text.take(i), widths.take(i));
            assert(before.1 && !before.0.in_escape());
        }
    }
}

/// Writing text without a line break leaves the cursor on its row.
pub proof fn lemma_write_keeps_row(view: FrameView, text: Seq<char>, widths: Seq<usize>)
    requires
        widths.len() == text.len(),
        count_char(text, '\n') == 0,
    ensures
        view.write(text, widths).0.cursor.row == view.cursor.row,
    decreases text.len(),
{
    if text.len() > 0 {
        lemma_write_keeps_row(view, text.drop_last(), widths.drop_last());
    }
}

/// Placing cells one after the other keeps every one of them, where each
/// is clear of all that follow it: at the end the frame holds each cell
/// that fell inside it, at the position on which it fell.
pub proof fn lemma_draw_cells_holds(
    view: FrameView,
    at: TerminalPosition,
    source: Seq<(TerminalPosition, TerminalChar)>,
    k: int,
)
    requires
        0 <= k < source.len(),
        forall|i: int| 0 <= i < source.len() ==> (#[trigger] source[i]).1.width >= 1,
        forall|i: int, j: int|
            0 <= i < j < source.len() ==> clear_of(#[trigger] source[i], #[trigger] source[j]),
        view.target(at, source[k].0).is_some(),
    ensures
        view.draw_cells(at, source).cells.contains_key(view.target(at, source[k].0).unwrap()),
        view.draw_cells(at, source).cells[view.target(at, source[k].0).unwrap()] == source[k].1,
    decreases source.len(),
{
    let shorter = source.drop_last();
    let before = view.draw_cells(at, shorter);
    let last = source.last();
    lemma_draw_cells_keeps(view, at, shorter);
    if k < source.len() - 1 {
        assert(shorter[k] == source[k]);
        assert forall|i: int| 0 <= i < shorter.len() implies (#[trigger] shorter[i]).1.width
            >= 1 by {
            assert(shorter[i] == source[i]);
        }
        assert forall|i: int, j: int| 0 <= i < j < shorter.len() implies clear_of(
            #[trigger] shorter[i],
            #[trigger] shorter[j],
        ) by {
            assert(shorter[i] == source[i] && shorter[j] == source[j]);
        }
        lemma_draw_cells_holds(view, at, shorter, k);
        let kept = view.target(at, source[k].0).unwrap();
        assert(clear_of(source[k], source[source.len() - 1]));
        match view.target(at, last.0) {
            Some(target) => {
                assert(!before.is_covering(kept, target));
                assert(kept != target);
            },
            None => {},
        }
    }
}

/// The law of composition: once a frame was drawn onto another, the other
/// holds every cell that the frame enumerates, at the position of the cell
/// moved by the position of the drawing, where that lies inside the other.
pub proof fn lemma_draw_holds_source(
    view: FrameView,
    at: TerminalPosition,
    source: FrameView,
    k: int,
)
    requires
        source.wf(),
        0 <= k < source.enumerate().len(),
        view.target(at, source.enumerate()[k].0).is_some(),
    ensures
        view.draw(at, source).cells.contains_key(
            view.target(at, source.enumerate()[k].0).unwrap(),
        ),
        view.draw(at, source).cells[view.target(at, source.enumerate()[k].0).unwrap()]
            == source.enumerate()[k].1,
{
    lemma_scan_cells(source, 0, 0, TerminalStyle::spec_new());
    lemma_draw_cells_holds(view, at, source.enumerate(), k);
}

/// One character more keeps a frame that was filled by writing alone in
/// order: its cells stay inside it, no cell starts under a wider one, and
/// all cells end at or before the cursor.
pub proof fn lemma_step_keeps_order(view: FrameView, c: char, width: usize)
    requires
        view.wf(),
        view.shadow_free(),
        view.behind_cursor(),
    ensures
        view.step(c, width).0.wf(),
        view.step(c, width).0.shadow_free(),
        view.step(c, width).0.behind_cursor(),
{
    let next = view.step(c, width).0;
    if shown(view, c) && width > 0 && view.fits(width) {
        assert forall|p: TerminalPosition, q: TerminalPosition|
            #![trigger next.cells.contains_key(p), next.cells.contains_key(q)]
            next.cells.contains_key(p) && next.cells.contains_key(q) && p.row == q.row && p.col
                < q.col implies p.col + next.cells[p].width <= q.col by {
            if q == view.cursor {
                assert(view.cells.contains_key(p));
            } else if p == view.cursor {
                assert(view.cells.contains_key(q));
            } else {
                assert(view.cells.contains_key(p) && view.cells.contains_key(q));
            }
        }
    }
}

/// Text written into a frame that was filled by writing alone keeps it in order.
pub proof fn lemma_write_keeps_order(view: FrameView, text: Seq<char>, widths: Seq<usize>)
    requires
        widths.len() == text.len(),
        view.wf(),
        view.shadow_free(),
        view.behind_cursor(),
    ensures
        view.write(text, widths).0.wf(),
        view.write(text, widths).0.shadow_free(),
        view.write(text, widths).0.behind_cursor(),
    decreases text.len(),
{
    if text.len() > 0 {
        lemma_write_keeps_order(view, text.drop_last(), widths.drop_last());
        lemma_step_keeps_order(
            view.write(text.drop_last(), widths.drop_last()).0,
            text.last(),
            widths.last(),
        );
    }
}

/// A cell placed into a frame in which no cell starts under a wider one
/// leaves the frame so, and leaves its cells inside it.
pub proof fn lemma_place_keeps_order(view: FrameView, target: TerminalPosition, cell: TerminalChar)
    requires
        view.wf(),
        view.shadow_free(),
        view.size.spec_contains(target),
        cell.width >= 1,
    ensures
        view.place(target, cell).wf(),
        view.place(target, cell).shadow_free(),
{
    let next = view.place(target, cell);
    assert forall|p: TerminalPosition, q: TerminalPosition|
        #![trigger next.cells.contains_key(p), next.cells.contains_key(q)]
        next.cells.contains_key(p) && next.cells.contains_key(q) && p.row == q.row && p.col
            < q.col implies p.col + next.cells[p].width <= q.col by {
        if q == target {
            assert(view.cells.contains_key(p));
            if p.col + view.cells[p].width > target.col {
                assert forall|r: TerminalPosition| #[trigger]
                    view.cells.contains_key(r) && r.spec_precedes(target) implies r == p
                    || r.spec_precedes(p) by {
                    assert(view.cells.contains_key(p) && view.cells.contains_key(r));
                }
                assert(view.is_covering(p, target));
            }
        } else if p == target {
            assert(view.cells.contains_key(q));
        } else {
            assert(view.cells.contains_key(p) && view.cells.contains_key(q));
        }
    }
}

/// Drawing onto a frame in which no cell starts under a wider one leaves
/// the frame so.
pub proof fn lemma_draw_keeps_order(view: FrameView, at: TerminalPosition, source: FrameView)
    requires
        view.wf(),
        view.shadow_free(),
        source.wf(),
    ensures
        view.draw(at, source).wf(),
        view.draw(at, source).shadow_free(),
{
    lemma_scan_cells(source, 0, 0, TerminalStyle::spec_new());
    lemma_draw_cells_keep_order(view, at, source.enumerate());
}

/// Cells placed one after the other keep a frame in order.
proof fn lemma_draw_cells_keep_order(
    view: FrameView,
    at: TerminalPosition,
    source: Seq<(TerminalPosition, TerminalChar)>,
)
    requires
        view.wf(),
        view.shadow_free(),
        forall|i: int| 0 <= i < source.len() ==> (#[trigger] source[i]).1.width >= 1,
    ensures
        view.draw_cells(at, source).wf(),
        view.draw_cells(at, source).shadow_free(),
    decreases source.len(),
{
    if source.len() > 0 {
        let shorter = source.drop_last();
        assert forall|i: int| 0 <= i < shorter.len() implies (#[trigger] shorter[i]).1.width
            >= 1 by {
            assert(shorter[i] == source[i]);
        }
        lemma_draw_cells_keep_order(view, at, shorter);
        lemma_draw_cells_keeps(view, at, shorter);
        match view.target(at, source.last().0) {
            Some(target) => {
                lemma_place_keeps_order(view.draw_cells(at, shorter), target, source.last().1);
            },
            None => {},
        }
    }
}

} // verus!
