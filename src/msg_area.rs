use vstd::prelude::*;

verus! {

/// How a segment of a line is drawn: foreground and background colours.
#[derive(Clone, Copy, Debug, PartialEq, Eq, Structural)]
pub struct SegStyle {
    pub fg: u16,
    pub bg: u16,
}

/// A line of text, with the style changes that apply from given positions on.
pub struct Line {
    text: Vec<char>,
    styles: Vec<(usize, SegStyle)>,
}

/// What a line holds: its characters, and each style with the position from
/// which it applies.
pub ghost struct LineView {
    pub text: Seq<char>,
    pub styles: Seq<(usize, SegStyle)>,
}

/// Rows that a line of `len` characters takes when wrapped at `width`
/// columns: at least one, and one character per row on a degenerate width.
pub open spec fn rows(len: nat, width: int) -> nat {
    if len == 0 {
        1
    } else if width <= 0 {
        len
    } else {
        ((len - 1) / width + 1) as nat
    }
}

impl View for Line {
    type V = LineView;

    closed spec fn view(&self) -> LineView {
        LineView { text: self.text@, styles: self.styles@ }
    }
}

impl Line {
    pub fn new() -> (r: Line)
        ensures
            r@.text.len() == 0,
            r@.styles.len() == 0,
    {
        Line { text: Vec::new(), styles: Vec::new() }
    }

    /// Text added from now on is drawn with `style`.
    pub fn set_style(&mut self, style: SegStyle)
        ensures
            final(self)@.text == old(self)@.text,
            final(self)@.styles == old(self)@.styles.push((old(self)@.text.len() as usize, style)),
    {
        let at = self.text.len();
        self.styles.push((at, style));
    }

    pub fn add_text(&mut self, s: &str)
        ensures
            final(self)@.text == old(self)@.text + s@,
            final(self)@.styles == old(self)@.styles,
    {
        let n = s.unicode_len();
        let mut i: usize = 0;
        while i < n
            invariant
                n == s@.len(),
                i <= n,
                self@.text == old(self)@.text + s@.subrange(0, i as int),
                self@.styles == old(self)@.styles,
            decreases n - i,
        {
            self.text.push(s.get_char(i));
            i = i + 1;
            assert(self@.text =~= old(self)@.text + s@.subrange(0, i as int));
        }
        assert(s@.subrange(0, n as int) =~= s@);
    }

    pub fn add_char(&mut self, c: char)
        ensures
            final(self)@.text == old(self)@.text.push(c),
            final(self)@.styles == old(self)@.styles,
    {
        self.text.push(c);
    }

    /// Rows this line takes when wrapped at `width` columns.
    pub fn rendered_height(&self, width: i32) -> (r: usize)
        ensures
            r == rows(self@.text.len(), width as int),
            r >= 1,
    {
        let len = self.text.len();
        if len == 0 {
            1
        } else if width <= 0 {
            len
        } else {
            let w = width as usize;
            let r = (len - 1) / w + 1;
            r
        }
    }
}

/// A scrollable area of lines, with a buffer for the line being built.
pub struct MsgArea {
    lines: Vec<Line>,
    width: i32,
    height: i32,
    /// Vertical scroll, as an offset from the last line: at 0 the last line
    /// is drawn at the bottom.
    scroll: i32,
    line_buf: Line,
}

pub ghost struct MsgAreaView {
    pub lines: Seq<LineView>,
    pub width: int,
    pub height: int,
    pub scroll: int,
    pub line_buf: LineView,
}

/// How many of the lines whose heights are `hs`, from the first on, fit into
/// `h` rows.
pub open spec fn lines_fitting(hs: Seq<nat>, h: int) -> nat
    decreases hs.len(),
{
    if hs.len() == 0 || h < hs[0] {
        0
    } else {
        1 + lines_fitting(hs.drop_first(), h - hs[0])
    }
}

/// Heights of `lines` wrapped at `width` columns.
pub open spec fn heights(lines: Seq<LineView>, width: int) -> Seq<nat> {
    lines.map_values(|l: LineView| rows(l.text.len(), width))
}

impl View for MsgArea {
    type V = MsgAreaView;

    closed spec fn view(&self) -> MsgAreaView {
        MsgAreaView {
            lines: self.lines@.map_values(|l: Line| l@),
            width: self.width as int,
            height: self.height as int,
            scroll: self.scroll as int,
            line_buf: self.line_buf@,
        }
    }
}

impl MsgArea {
    /// The scroll offset never passes the number of lines, and that number
    /// fits the screen coordinates.
    pub open spec fn wf(&self) -> bool {
        &&& self@.lines.len() <= i32::MAX
        &&& 0 <= self@.scroll <= self@.lines.len()
    }

    pub fn new(width: i32, height: i32) -> (r: MsgArea)
        ensures
            r.wf(),
            r@.lines.len() == 0,
            r@.width == width,
            r@.height == height,
            r@.scroll == 0,
            r@.line_buf.text.len() == 0,
            r@.line_buf.styles.len() == 0,
    {
        let r = MsgArea { lines: Vec::new(), width, height, scroll: 0, line_buf: Line::new() };
        assert(r@.lines =~= Seq::<LineView>::empty());
        r
    }

    pub fn resize(&mut self, width: i32, height: i32)
        ensures
            final(self)@ == (MsgAreaView { width: width as int, height: height as int, ..old(self)@ }),
    {
        self.width = width;
        self.height = height;
    }

    pub fn scroll(&self) -> (r: i32)
        ensures
            r == self@.scroll,
    {
        self.scroll
    }

    pub fn num_lines(&self) -> (r: usize)
        ensures
            r == self@.lines.len(),
    {
        self.lines.len()
    }

    /// Moves one line up, unless the first line is already at the bottom.
    pub fn scroll_up(&mut self)
        requires
            old(self).wf(),
        ensures
            final(self).wf(),
            final(self)@ == (MsgAreaView {
                scroll: if old(self)@.scroll < old(self)@.lines.len() - 1 {
                    old(self)@.scroll + 1
                } else {
                    old(self)@.scroll
                },
                ..old(self)@
            }),
    {
        if self.scroll < (self.lines.len() as i32) - 1 {
            self.scroll = self.scroll + 1;
        }
    }

    /// Moves one line down, unless already at the bottom.
    pub fn scroll_down(&mut self)
        requires
            old(self).wf(),
        ensures
            final(self).wf(),
            final(self)@ == (MsgAreaView {
                scroll: if old(self)@.scroll > 0 {
                    old(self)@.scroll - 1
                } else {
                    0
                },
                ..old(self)@
            }),
    {
        if self.scroll > 0 {
            self.scroll = self.scroll - 1;
        }
    }

    /// Scrolls so that the first line is at the top of the area.
    pub fn scroll_top(&mut self)
        requires
            old(self).wf(),
        ensures
            final(self).wf(),
            final(self)@ == (MsgAreaView {
                scroll: if old(self)@.lines.len() == 0 {
                    old(self)@.scroll
                } else {
                    old(self)@.lines.len() - lines_fitting(
                        heights(old(self)@.lines, old(self)@.width),
                        old(self)@.height,
                    )
                },
                ..old(self)@
            }),
    {
        if self.lines.len() == 0 {
            return;
        }
        let ghost hs = heights(self@.lines, self@.width);
        let mut height_left: usize = if self.height > 0 {
            self.height as usize
        } else {
            0
        };
        let mut i: usize = 0;
        proof {
            assert(hs.skip(0) =~= hs);
            assert(hs[0] >= 1);
        }
        while i < self.lines.len()
            invariant
                *self == *old(self),
                hs.len() == self.lines@.len(),
                hs == heights(self@.lines, self@.width),
                i <= self.lines@.len(),
                lines_fitting(hs, self@.height) == i + lines_fitting(
                    hs.skip(i as int),
                    height_left as int,
                ),
                self@.height > 0 ==> height_left <= self@.height,
                self@.height <= 0 ==> height_left == 0,
                i > 0 || height_left == (if self@.height > 0 { self@.height } else { 0 }),
            ensures
                *self == *old(self),
                i <= self.lines@.len(),
                lines_fitting(hs, self@.height) == i,
            decreases self.lines.len() - i,
        {
            let rendered = self.lines[i].rendered_height(self.width);
            assert(hs.skip(i as int)[0] == rendered);
            if height_left < rendered {
                assert(lines_fitting(hs.skip(i as int), height_left as int) == 0);
                break;
            }
            assert(hs.skip(i as int).drop_first() =~= hs.skip(i + 1));
            height_left = height_left - rendered;
            i = i + 1;
        }
        self.scroll = (self.lines.len() - i) as i32;
    }

    pub fn scroll_bottom(&mut self)
        requires
            old(self).wf(),
        ensures
            final(self).wf(),
            final(self)@ == (MsgAreaView { scroll: 0, ..old(self)@ }),
    {
        self.scroll = 0;
    }

    /// Moves ten lines up, but not past the first line.
    pub fn page_up(&mut self)
        requires
            old(self).wf(),
        ensures
            final(self).wf(),
            final(self)@ == (MsgAreaView {
                scroll: vstd::math::max(
                    0,
                    vstd::math::min(old(self)@.lines.len() - 1, old(self)@.scroll + 10),
                ),
                ..old(self)@
            }),
    {
        let top = self.lines.len() as i64 - 1;
        let up = self.scroll as i64 + 10;
        let s = if top < up { top } else { up };
        let s = if s < 0 { 0 } else { s };
        self.scroll = s as i32;
    }

    /// Moves ten lines down, but not past the bottom.
    pub fn page_down(&mut self)
        requires
            old(self).wf(),
        ensures
            final(self).wf(),
            final(self)@ == (MsgAreaView {
                scroll: vstd::math::max(0, old(self)@.scroll - 10),
                ..old(self)@
            }),
    {
        let s = self.scroll - 10;
        self.scroll = if s < 0 { 0 } else { s };
    }

    pub fn set_style(&mut self, style: SegStyle)
        ensures
            final(self)@ == (MsgAreaView {
                line_buf: LineView {
                    styles: old(self)@.line_buf.styles.push(
                        (old(self)@.line_buf.text.len() as usize, style),
                    ),
                    ..old(self)@.line_buf
                },
                ..old(self)@
            }),
    {
        self.line_buf.set_style(style);
    }

    pub fn add_text(&mut self, s: &str)
        ensures
            final(self)@ == (MsgAreaView {
                line_buf: LineView { text: old(self)@.line_buf.text + s@, ..old(self)@.line_buf },
                ..old(self)@
            }),
    {
        self.line_buf.add_text(s);
    }

    pub fn add_char(&mut self, c: char)
        ensures
            final(self)@ == (MsgAreaView {
                line_buf: LineView { text: old(self)@.line_buf.text.push(c), ..old(self)@.line_buf },
                ..old(self)@
            }),
    {
        self.line_buf.add_char(c);
    }

    /// Ends the line being built: it becomes the last line, and a view that
    /// is scrolled up stays on the same lines. Returns the new line's index.
    pub fn flush_line(&mut self) -> (r: usize)
        requires
            old(self).wf(),
            old(self)@.lines.len() < i32::MAX,
        ensures
            final(self).wf(),
            r == old(self)@.lines.len(),
            final(self)@.lines == old(self)@.lines.push(old(self)@.line_buf),
            final(self)@.line_buf.text.len() == 0,
            final(self)@.line_buf.styles.len() == 0,
            final(self)@.scroll == if old(self)@.scroll != 0 {
                old(self)@.scroll + 1
            } else {
                0
            },
            final(self)@.width == old(self)@.width,
            final(self)@.height == old(self)@.height,
    {
        let mut line = Line::new();
        std::mem::swap(&mut line, &mut self.line_buf);
        self.lines.push(line);
        if self.scroll != 0 {
            self.scroll = self.scroll + 1;
        }
        assert(self@.lines =~= old(self)@.lines.push(old(self)@.line_buf));
        self.lines.len() - 1
    }

    /// Replaces the line at `idx` by what `f` makes of it.
    pub fn modify_line<F: Fn(Line) -> Line>(&mut self, idx: usize, f: F)
        requires
            idx < old(self)@.lines.len(),
            forall|l: Line| f.requires((l,)),
        ensures
            final(self)@.lines.len() == old(self)@.lines.len(),
            forall|i: int|
                0 <= i < old(self)@.lines.len() && i != idx ==> final(self)@.lines[i] == old(
                    self,
                )@.lines[i],
            exists|a: Line, b: Line|
                a@ == old(self)@.lines[idx as int] && b@ == final(self)@.lines[idx as int]
                    && f.ensures((a,), b),
            final(self)@.width == old(self)@.width,
            final(self)@.height == old(self)@.height,
            final(self)@.scroll == old(self)@.scroll,
            final(self)@.line_buf == old(self)@.line_buf,
    {
        let mut line = Line::new();
        self.lines.set_and_swap(idx, &mut line);
        let ghost a = line;
        let new_line = f(line);
        let ghost b = new_line;
        let mut new_line = new_line;
        self.lines.set_and_swap(idx, &mut new_line);
        assert(self@.lines[idx as int] == b@);
        assert(a@ == old(self)@.lines[idx as int]);
    }
}

/// Where a line is drawn: its index, the first row on which it shows, and
/// how many of its rows at the top are cut off.
#[derive(Clone, Copy, Debug, PartialEq, Eq, Structural)]
pub struct DrawLine {
    pub line: usize,
    pub row: i64,
    pub skip: usize,
}

/// The lines drawn into rows `top..=row`, from the line at `idx` upwards,
/// each right above the one below it; the topmost may show only its last
/// rows.
pub open spec fn layout(hs: Seq<nat>, idx: int, row: int, top: int) -> Seq<(int, int, int)>
    decreases idx + 1,
{
    if idx < 0 || idx >= hs.len() || row < top {
        Seq::empty()
    } else if row - hs[idx] + 1 >= top {
        seq![(idx, row - hs[idx] + 1, 0int)] + layout(hs, idx - 1, row - hs[idx], top)
    } else {
        seq![(idx, top, hs[idx] - (row - top + 1))]
    }
}

pub open spec fn draw_view(v: Seq<DrawLine>) -> Seq<(int, int, int)> {
    v.map_values(|d: DrawLine| (d.line as int, d.row as int, d.skip as int))
}

impl MsgArea {
    /// The lines to draw with the area's top row at `pos_y`, bottom line
    /// first: the line `scroll` lines above the last one goes at the
    /// bottom, and each line above it right on top.
    pub fn draw_plan(&self, pos_y: i32) -> (r: Vec<DrawLine>)
        requires
            self.wf(),
        ensures
            draw_view(r@) == layout(
                heights(self@.lines, self@.width),
                self@.lines.len() - 1 - self@.scroll,
                pos_y + self@.height - 1,
                pos_y as int,
            ),
    {
        let ghost hs = heights(self@.lines, self@.width);
        let top = pos_y as i64;
        let mut row: i64 = pos_y as i64 + self.height as i64 - 1;
        let mut idx: i64 = self.lines.len() as i64 - 1 - self.scroll as i64;
        let mut r: Vec<DrawLine> = Vec::new();
        let ghost whole = layout(hs, idx as int, row as int, top as int);
        while idx >= 0 && row >= top
            invariant
                hs == heights(self@.lines, self@.width),
                self.wf(),
                idx < self@.lines.len(),
                top == pos_y,
                row <= pos_y + self@.height - 1,
                whole == layout(
                    hs,
                    self@.lines.len() - 1 - self@.scroll,
                    pos_y + self@.height - 1,
                    pos_y as int,
                ),
                draw_view(r@) + layout(hs, idx as int, row as int, top as int) == whole,
            decreases idx + 1,
        {
            let i = idx as usize;
            let h = self.lines[i].rendered_height(self.width);
            assert(hs[i as int] == h);
            let room = (row - top + 1) as usize;
            let ghost before = draw_view(r@);
            if h <= room {
                let line_row = row - h as i64 + 1;
                r.push(DrawLine { line: i, row: line_row, skip: 0 });
                assert(draw_view(r@) =~= before.push((i as int, line_row as int, 0int)));
                assert(before + layout(hs, idx as int, row as int, top as int) =~= draw_view(r@)
                    + layout(hs, idx - 1, line_row - 1, top as int));
                row = line_row - 1;
                idx = idx - 1;
            } else {
                r.push(DrawLine { line: i, row: top, skip: h - room });
                assert(draw_view(r@) =~= before.push((i as int, top as int, h - room)));
                assert(draw_view(r@) =~= whole);
                return r;
            }
        }
        assert(layout(hs, idx as int, row as int, top as int) =~= Seq::<(int, int, int)>::empty());
        assert(draw_view(r@) =~= whole);
        r
    }
}

} // verus!
