//! The double-buffered screen: a pending grid that callers write into and a
//! rendered grid that mirrors what the terminal shows.
use vstd::prelude::*;

use crate::colored_text::{styled, ColoredChar, ColoredText, StyledCell};
use crate::colors::{reset_seq, reset_string};
use crate::terminal::get_dimensions;

verus! {

/// A grid of cells, row by row.
pub type Grid = Seq<Seq<StyledCell>>;

/// What a screen holds: its size and its two grids.
pub ghost struct ScreenModel {
    pub width: nat,
    pub height: nat,
    pub pending: Grid,
    pub rendered: Grid,
}

impl ScreenModel {
    /// `g` has `height` rows of `width` cells each.
    pub open spec fn is_grid(self, g: Grid) -> bool {
        &&& g.len() == self.height
        &&& forall|i: int| 0 <= i < g.len() ==> (#[trigger] g[i]).len() == self.width
    }

    /// Both grids have this shape, and the shape is not empty.
    pub open spec fn wf(self) -> bool {
        &&& self.width > 0
        &&& self.height > 0
        &&& self.is_grid(self.pending)
        &&& self.is_grid(self.rendered)
    }
}

/// A grid of `height` rows of `width` copies of `cell`.
pub open spec fn filled(width: nat, height: nat, cell: StyledCell) -> Grid {
    Seq::new(height, |i: int| Seq::new(width, |j: int| cell))
}

/// A blank in the default style: what a fresh or cleared pending grid holds.
pub open spec fn blank_cell() -> StyledCell {
    styled(' ', reset_seq())
}

/// The cell that a fresh rendered grid holds: it differs from every blank.
pub open spec fn sentinel_cell() -> StyledCell {
    styled('*', Seq::empty())
}

/// Cell `j` of `row` after `text` is written into it from column `start` on.
pub open spec fn placed_at(
    row: Seq<StyledCell>,
    start: int,
    text: Seq<char>,
    style: Seq<char>,
    j: int,
) -> StyledCell {
    if start <= j < start + text.len() {
        styled(text[j - start], style)
    } else {
        row[j]
    }
}

/// `row` after `text` is written into it from column `start` on in `style`:
/// the characters that would land past the row's end are dropped.
pub open spec fn placed(row: Seq<StyledCell>, start: int, text: Seq<char>, style: Seq<char>) -> Seq<
    StyledCell,
> {
    Seq::new(row.len(), |j: int| placed_at(row, start, text, style, j))
}

/// The model of a screen after `text` is placed at column `start` of row `row`.
pub open spec fn with_text(
    m: ScreenModel,
    start: int,
    row: int,
    text: Seq<char>,
    style: Seq<char>,
) -> ScreenModel {
    if 0 <= row < m.height {
        ScreenModel {
            pending: m.pending.update(row, placed(m.pending[row], start, text, style)),
            ..m
        }
    } else {
        m
    }
}

/// The model once a flush has brought the terminal in line with the
/// pending grid.
pub open spec fn flushed(m: ScreenModel) -> ScreenModel {
    ScreenModel { rendered: m.pending, ..m }
}

/// The writes that bring the first `n` cells of row `row` from `have` to
/// `want`: one for each cell that differs, left to right.
pub open spec fn row_changes(row: int, want: Seq<StyledCell>, have: Seq<StyledCell>, n: int) -> Seq<
    (int, int, StyledCell),
>
    decreases n,
{
    if n <= 0 {
        Seq::empty()
    } else {
        let prev = row_changes(row, want, have, n - 1);
        if want[n - 1] != have[n - 1] {
            prev.push((row, n - 1, want[n - 1]))
        } else {
            prev
        }
    }
}

/// The writes that bring the first `n` rows from `have` to `want`, row by row.
pub open spec fn grid_changes(want: Grid, have: Grid, width: int, n: int) -> Seq<
    (int, int, StyledCell),
>
    decreases n,
{
    if n <= 0 {
        Seq::empty()
    } else {
        grid_changes(want, have, width, n - 1) + row_changes(n - 1, want[n - 1], have[n - 1], width)
    }
}

/// The writes that a flush of `m` emits, as (row, column, cell).
pub open spec fn changes(m: ScreenModel) -> Seq<(int, int, StyledCell)> {
    grid_changes(m.pending, m.rendered, m.width as int, m.height as int)
}

/// The character of decimal digit `d`.
pub open spec fn digit(d: int) -> char {
    seq!['0', '1', '2', '3', '4', '5', '6', '7', '8', '9'][d]
}

/// `n` in decimal, without leading zeros.
pub open spec fn decimal(n: nat) -> Seq<char>
    decreases n,
{
    if n < 10 {
        seq![digit(n as int)]
    } else {
        decimal(n / 10).push(digit((n % 10) as int))
    }
}

/// The directive that moves the cursor to 1-based `row` and `col`.
pub open spec fn goto_seq(row: nat, col: nat) -> Seq<char> {
    seq!['\x1b', '['] + decimal(row) + seq![';'] + decimal(col) + seq!['H']
}

/// What one write emits: the cell's style, the cursor move to its 1-based
/// position, the character, and a reset.
pub open spec fn write_seq(w: (int, int, StyledCell)) -> Seq<char> {
    w.2.style + goto_seq((w.0 + 1) as nat, (w.1 + 1) as nat) + seq![w.2.ch] + reset_seq()
}

/// What a list of writes emits, in order.
pub open spec fn writes_seq(ws: Seq<(int, int, StyledCell)>) -> Seq<char>
    decreases ws.len(),
{
    if ws.len() == 0 {
        Seq::empty()
    } else {
        writes_seq(ws.drop_last()) + write_seq(ws.last())
    }
}

/// What a flush emits: the writes, then the cursor parked at row
/// `height - 1`, column `width`.
pub open spec fn frame_seq(ws: Seq<(int, int, StyledCell)>, width: nat, height: nat) -> Seq<char> {
    writes_seq(ws) + goto_seq((height - 1) as nat, width)
}

/// One cell that a flush writes.
pub struct CellWrite {
    pub row: usize,
    pub col: usize,
    pub cell: ColoredChar,
}

impl View for CellWrite {
    type V = (int, int, StyledCell);

    open spec fn view(&self) -> (int, int, StyledCell) {
        (self.row as int, self.col as int, self.cell@)
    }
}

/// The model of each write, in order.
pub open spec fn writes_of(ws: Seq<CellWrite>) -> Seq<(int, int, StyledCell)> {
    ws.map_values(|w: CellWrite| w@)
}

/// Relies on `String::push`: appends `c` to `s`.
#[verifier::external_body]
fn push_char(s: &mut String, c: char)
    ensures
        final(s)@ == old(s)@.push(c),
{
    s.push(c)
}

fn digit_char(d: usize) -> (c: char)
    requires
        d < 10,
    ensures
        c == digit(d as int),
{
    let digits = "0123456789";
    proof {
        reveal_strlit("0123456789");
    }
    assert(digits@ =~= seq!['0', '1', '2', '3', '4', '5', '6', '7', '8', '9']);
    digits.get_char(d)
}

/// Appends `n` in decimal to `out`.
fn push_decimal(out: &mut String, n: usize)
    ensures
        final(out)@ == old(out)@ + decimal(n as nat),
    decreases n,
{
    let ghost before = out@;
    if n >= 10 {
        push_decimal(out, n / 10);
    }
    push_char(out, digit_char(n % 10));
    assert(out@ =~= before + decimal(n as nat));
}

/// Appends the directive that moves the cursor to `row`, `col`.
fn push_goto(out: &mut String, row: usize, col: usize)
    ensures
        final(out)@ == old(out)@ + goto_seq(row as nat, col as nat),
{
    let ghost before = out@;
    push_char(out, '\x1b');
    push_char(out, '[');
    push_decimal(out, row);
    push_char(out, ';');
    push_decimal(out, col);
    push_char(out, 'H');
    assert(out@ =~= before + goto_seq(row as nat, col as nat));
}

/// The text that draws `writes` and then parks the cursor at row
/// `height - 1`, column `width`.
pub fn encode(writes: &Vec<CellWrite>, width: usize, height: usize) -> (out: String)
    requires
        height > 0,
        forall|k: int| 0 <= k < writes@.len() ==> (#[trigger] writes@[k]).row < height
            && writes@[k].col < width,
    ensures
        out@ == frame_seq(writes_of(writes@), width as nat, height as nat),
{
    let ghost ws = writes_of(writes@);
    let mut out = String::new();
    let mut k: usize = 0;
    while k < writes.len()
        invariant
            k <= writes@.len(),
            ws == writes_of(writes@),
            forall|q: int| 0 <= q < writes@.len() ==> (#[trigger] writes@[q]).row < height
                && writes@[q].col < width,
            out@ == writes_seq(ws.subrange(0, k as int)),
        decreases writes@.len() - k,
    {
        let w = &writes[k];
        let ghost before = out@;
        out.append(w.cell.prefix().as_str());
        push_goto(&mut out, w.row + 1, w.col + 1);
        push_char(&mut out, *w.cell.contents());
        proof {
            reveal_strlit("\x1b[0m");
        }
        out.append(crate::colors::RESET);
        k = k + 1;
        assert(ws.subrange(0, k as int).drop_last() =~= ws.subrange(0, k - 1));
        assert(out@ =~= before + write_seq(ws[k - 1]));
    }
    assert(ws.subrange(0, k as int) =~= ws);
    push_goto(&mut out, height - 1, width);
    out
}

/// The cells of one row.
pub open spec fn cells_of(v: Vec<ColoredChar>) -> Seq<StyledCell> {
    v@.map_values(|c: ColoredChar| c@)
}

/// The cells of every row.
pub open spec fn grid_of(g: Seq<Vec<ColoredChar>>) -> Grid {
    g.map_values(|r: Vec<ColoredChar>| cells_of(r))
}

/// A terminal screen. Text placed into it shows on the terminal only once
/// the screen is flushed.
pub struct Scr {
    pending: Vec<Vec<ColoredChar>>,
    rendered: Vec<Vec<ColoredChar>>,
    width: usize,
    height: usize,
}

impl View for Scr {
    type V = ScreenModel;

    closed spec fn view(&self) -> ScreenModel {
        ScreenModel {
            width: self.width as nat,
            height: self.height as nat,
            pending: grid_of(self.pending@),
            rendered: grid_of(self.rendered@),
        }
    }
}

/// A grid of `height` rows of `width` copies of `cell`.
fn filled_grid(width: usize, height: usize, cell: &ColoredChar) -> (g: Vec<Vec<ColoredChar>>)
    ensures
        grid_of(g@) == filled(width as nat, height as nat, cell@),
{
    let mut g: Vec<Vec<ColoredChar>> = Vec::new();
    let mut i: usize = 0;
    while i < height
        invariant
            i <= height,
            g@.len() == i,
            forall|a: int| 0 <= a < i ==> (#[trigger] g@[a])@.len() == width,
            forall|a: int, b: int| 0 <= a < i && 0 <= b < width ==> (#[trigger] g@[a]@[b])@ == cell@,
        decreases height - i,
    {
        let mut row: Vec<ColoredChar> = Vec::new();
        let mut j: usize = 0;
        while j < width
            invariant
                j <= width,
                row@.len() == j,
                forall|b: int| 0 <= b < j ==> (#[trigger] row@[b])@ == cell@,
            decreases width - j,
        {
            row.push(cell.duplicate());
            j += 1;
        }
        g.push(row);
        i += 1;
    }
    assert forall|a: int| 0 <= a < height implies grid_of(g@)[a] == filled(
        width as nat,
        height as nat,
        cell@,
    )[a] by {
        assert(grid_of(g@)[a] =~= filled(width as nat, height as nat, cell@)[a]);
    }
    assert(grid_of(g@) =~= filled(width as nat, height as nat, cell@));
    g
}

/// Writing one more character of `text` changes one more cell.
proof fn lemma_placed_step(row: Seq<StyledCell>, start: int, text: Seq<char>, style: Seq<char>, i: int)
    requires
        0 <= i < text.len(),
        0 <= start,
        start + i < row.len(),
    ensures
        placed(row, start, text.subrange(0, i + 1), style) == placed(
            row,
            start,
            text.subrange(0, i),
            style,
        ).update(start + i, styled(text[i], style)),
{
    let a = placed(row, start, text.subrange(0, i + 1), style);
    let b = placed(row, start, text.subrange(0, i), style).update(start + i, styled(text[i], style));
    assert(placed(row, start, text.subrange(0, i), style).len() == row.len());
    assert forall|j: int| 0 <= j < row.len() implies a[j] == b[j] by {
        if start <= j < start + i + 1 {
            assert(text.subrange(0, i + 1)[j - start] == text[j - start]);
        }
        if start <= j < start + i {
            assert(text.subrange(0, i)[j - start] == text[j - start]);
        }
    }
    assert(a =~= b);
}

/// Once the text is used up or the row is full, the rest of the text
/// changes nothing.
proof fn lemma_placed_done(row: Seq<StyledCell>, start: int, text: Seq<char>, style: Seq<char>, i: int)
    requires
        0 <= i <= text.len(),
        i == text.len() || start + i >= row.len(),
    ensures
        placed(row, start, text.subrange(0, i), style) == placed(row, start, text, style),
{
    let a = placed(row, start, text.subrange(0, i), style);
    let b = placed(row, start, text, style);
    assert forall|j: int| 0 <= j < row.len() implies a[j] == b[j] by {
        if start <= j < start + i {
            assert(text.subrange(0, i)[j - start] == text[j - start]);
        }
    }
    assert(a =~= b);
}

impl Scr {
    /// Both grids have the screen's shape, and the screen is not empty.
    pub open spec fn wf(&self) -> bool {
        self@.wf()
    }

    /// A screen of the given size whose first flush paints every cell.
    pub fn with_dimensions(width: usize, height: usize) -> (r: Self)
        requires
            width > 0,
            height > 0,
        ensures
            r.wf(),
            r@.width == width,
            r@.height == height,
            r@.pending == filled(width as nat, height as nat, blank_cell()),
            r@.rendered == filled(width as nat, height as nat, sentinel_cell()),
    {
        let blank = ColoredChar::new(' ', reset_string());
        let sentinel = ColoredChar::new('*', String::new());
        Scr {
            pending: filled_grid(width, height, &blank),
            rendered: filled_grid(width, height, &sentinel),
            width,
            height,
        }
    }

    /// A screen the size of the terminal, or 80 by 24 when that cannot be
    /// had. Its first flush paints every cell.
    pub fn new() -> (r: Self)
        ensures
            r.wf(),
            r@.pending == filled(r@.width, r@.height, blank_cell()),
            r@.rendered == filled(r@.width, r@.height, sentinel_cell()),
    {
        let (w, h) = get_dimensions();
        Scr::with_dimensions(w, h)
    }

    /// The width and the height, in cells.
    pub fn dimensions(&self) -> (r: (usize, usize))
        ensures
            r.0 == self@.width,
            r.1 == self@.height,
    {
        (self.width, self.height)
    }

    /// Writes `msg` into row `y` of the pending grid from column `*x` on.
    /// Characters past the last column are dropped, a row past the last one
    /// writes nothing, and `*x` is left as it was.
    pub fn set_text(&mut self, x: &mut usize, y: usize, msg: &ColoredText) -> (r: &mut Self)
        requires
            old(self).wf(),
        ensures
            *final(x) == *old(x),
            (*r)@ == with_text(old(self)@, *old(x) as int, y as int, msg.text_view(), msg.style_view()),
            (*r).wf(),
            *final(self) == *final(r),
    {
        let start = *x;
        if y >= self.height {
            *x = start;
            return self;
        }
        let s = msg.contents().as_str();
        let n = s.unicode_len();
        let ghost text = msg.text_view();
        let ghost style = msg.style_view();
        let ghost row0 = self@.pending[y as int];
        let ghost m0 = self@;
        assert(row0.len() == self.width);
        let mut i: usize = 0;
        assert(placed(row0, start as int, text.subrange(0, 0), style) =~= row0);
        assert(m0.pending.update(y as int, row0) =~= m0.pending);
        while i < n && *x < self.width
            invariant
                *x == start + i,
                i <= n,
                n == text.len(),
                s@ == text,
                style == msg.style_view(),
                y < self.height,
                row0.len() == self.width,
                self.wf(),
                m0.wf(),
                self@.width == m0.width,
                self@.height == m0.height,
                self@.rendered == m0.rendered,
                self@.pending == m0.pending.update(
                    y as int,
                    placed(row0, start as int, text.subrange(0, i as int), style),
                ),
            decreases n - i,
        {
            let c = s.get_char(i);
            let cell = ColoredChar::new(c, msg.prefix().clone());
            let ghost old_vecs = self.pending@;
            let ghost old_row = self.pending@[y as int]@;
            let ghost col = *x as int;
            assert(cells_of(self.pending@[y as int]) == self@.pending[y as int]);
            self.pending[y][*x] = cell;
            proof {
                lemma_placed_step(row0, start as int, text, style, i as int);
                let new_row = self.pending@[y as int];
                assert(new_row@ == old_row.update(col, cell));
                assert(cells_of(new_row) =~= cells_of(old_vecs[y as int]).update(col, cell@));
                assert(grid_of(self.pending@) =~= grid_of(old_vecs).update(y as int, cells_of(new_row)));
                assert(cells_of(old_vecs[y as int]) == placed(
                    row0,
                    start as int,
                    text.subrange(0, i as int),
                    style,
                ));
                assert(cells_of(new_row) == placed(
                    row0,
                    start as int,
                    text.subrange(0, i + 1),
                    style,
                ));
                assert(grid_of(self.pending@) =~= m0.pending.update(
                    y as int,
                    placed(row0, start as int, text.subrange(0, i + 1), style),
                ));
            }
            *x = *x + 1;
            i = i + 1;
        }
        proof {
            lemma_placed_done(row0, start as int, text, style, i as int);
        }
        *x = start;
        self
    }

    /// Sets every pending cell to a blank in the default style. What the
    /// terminal shows changes only at the next flush.
    pub fn clear(&mut self) -> (r: &mut Self)
        requires
            old(self).wf(),
        ensures
            (*r)@ == (ScreenModel {
                pending: filled(old(self)@.width, old(self)@.height, blank_cell()),
                ..old(self)@
            }),
            (*r).wf(),
            *final(self) == *final(r),
    {
        let ghost m0 = self@;
        assert forall|a: int| 0 <= a < self.height implies (#[trigger] self.pending@[a])@.len()
            == self.width by {
            assert(grid_of(self.pending@)[a].len() == self.width);
        }
        let mut i: usize = 0;
        while i < self.height
            invariant
                m0.wf(),
                self.width == m0.width,
                self.height == m0.height,
                grid_of(self.rendered@) == m0.rendered,
                self.pending@.len() == self.height,
                i <= self.height,
                forall|a: int| 0 <= a < self.height ==> (#[trigger] self.pending@[a])@.len() == self.width,
                forall|a: int, b: int|
                    0 <= a < i && 0 <= b < self.width ==> (#[trigger] self.pending@[a]@[b])@
                        == blank_cell(),
            decreases self.height - i,
        {
            let mut j: usize = 0;
            while j < self.width
                invariant
                    m0.wf(),
                    self.width == m0.width,
                    self.height == m0.height,
                    grid_of(self.rendered@) == m0.rendered,
                    self.pending@.len() == self.height,
                    i < self.height,
                    j <= self.width,
                    forall|a: int| 0 <= a < self.height ==> (#[trigger] self.pending@[a])@.len() == self.width,
                    forall|a: int, b: int|
                        0 <= a < i && 0 <= b < self.width ==> (#[trigger] self.pending@[a]@[b])@
                            == blank_cell(),
                    forall|b: int| 0 <= b < j ==> (#[trigger] self.pending@[i as int]@[b])@ == blank_cell(),
                decreases self.width - j,
            {
                self.pending[i][j] = ColoredChar::new(' ', reset_string());
                j += 1;
            }
            i += 1;
        }
        assert forall|a: int| 0 <= a < self.height implies grid_of(self.pending@)[a] == filled(
            m0.width,
            m0.height,
            blank_cell(),
        )[a] by {
            assert(grid_of(self.pending@)[a] =~= filled(m0.width, m0.height, blank_cell())[a]);
        }
        assert(grid_of(self.pending@) =~= filled(m0.width, m0.height, blank_cell()));
        self
    }

    /// Copies every pending cell that differs from the rendered one into the
    /// rendered grid, and returns those cells in row-major order.
    pub fn diff(&mut self) -> (writes: Vec<CellWrite>)
        requires
            old(self).wf(),
        ensures
            final(self)@ == flushed(old(self)@),
            final(self).wf(),
            writes_of(writes@) == changes(old(self)@),
            forall|k: int|
                0 <= k < writes@.len() ==> (#[trigger] writes@[k]).row < old(self)@.height
                    && writes@[k].col < old(self)@.width,
    {
        let ghost m0 = self@;
        let ghost p = m0.pending;
        let ghost r0 = self.rendered@;
        let w = self.width;
        let h = self.height;
        assert forall|a: int| 0 <= a < h implies (#[trigger] self.rendered@[a])@.len() == w by {
            assert(grid_of(self.rendered@)[a].len() == w);
        }
        assert forall|a: int| 0 <= a < h implies (#[trigger] self.pending@[a])@.len() == w by {
            assert(grid_of(self.pending@)[a].len() == w);
        }
        let mut writes: Vec<CellWrite> = Vec::new();
        let mut i: usize = 0;
        while i < h
            invariant
                m0.wf(),
                w == m0.width,
                h == m0.height,
                self.width == w,
                self.height == h,
                p == grid_of(self.pending@),
                grid_of(r0) == m0.rendered,
                i <= h,
                self.pending@.len() == h,
                self.rendered@.len() == h,
                forall|a: int| 0 <= a < h ==> (#[trigger] self.rendered@[a])@.len() == w,
                forall|a: int| 0 <= a < h ==> (#[trigger] self.pending@[a])@.len() == w,
                forall|a: int| 0 <= a < i ==> cells_of(#[trigger] self.rendered@[a]) == p[a],
                forall|a: int| i <= a < h ==> #[trigger] self.rendered@[a] == r0[a],
                writes_of(writes@) == grid_changes(p, m0.rendered, w as int, i as int),
                forall|k: int|
                    0 <= k < writes@.len() ==> (#[trigger] writes@[k]).row < h && writes@[k].col < w,
            decreases h - i,
        {
            let mut j: usize = 0;
            while j < w
                invariant
                    m0.wf(),
                    w == m0.width,
                    h == m0.height,
                    self.width == w,
                    self.height == h,
                    p == grid_of(self.pending@),
                    grid_of(r0) == m0.rendered,
                    i < h,
                    j <= w,
                    self.pending@.len() == h,
                    self.rendered@.len() == h,
                    forall|a: int| 0 <= a < h ==> (#[trigger] self.rendered@[a])@.len() == w,
                    forall|a: int| 0 <= a < h ==> (#[trigger] self.pending@[a])@.len() == w,
                    forall|a: int| 0 <= a < i ==> cells_of(#[trigger] self.rendered@[a]) == p[a],
                    forall|a: int| i < a < h ==> #[trigger] self.rendered@[a] == r0[a],
                    forall|b: int| 0 <= b < j ==> (#[trigger] self.rendered@[i as int]@[b])@ == p[i as int][b],
                    forall|b: int| j <= b < w ==> #[trigger] self.rendered@[i as int]@[b] == r0[i as int]@[b],
                    writes_of(writes@) == grid_changes(p, m0.rendered, w as int, i as int) + row_changes(
                        i as int,
                        p[i as int],
                        m0.rendered[i as int],
                        j as int,
                    ),
                    forall|k: int|
                        0 <= k < writes@.len() ==> (#[trigger] writes@[k]).row < h && writes@[k].col < w,
                decreases w - j,
            {
                let ghost before = writes_of(writes@);
                assert(self.pending@[i as int]@[j as int]@ == p[i as int][j as int]);
                assert(grid_of(r0)[i as int] == cells_of(r0[i as int]));
                assert(self.rendered@[i as int]@[j as int]@ == m0.rendered[i as int][j as int]);
                if !(self.pending[i][j] == self.rendered[i][j]) {
                    let cell = self.pending[i][j].duplicate();
                    writes.push(CellWrite { row: i, col: j, cell });
                    assert(writes_of(writes@) =~= before.push((i as int, j as int, p[i as int][j as int])));
                    self.rendered[i][j] = self.pending[i][j].duplicate();
                }
                j += 1;
                assert(writes_of(writes@) =~= grid_changes(p, m0.rendered, w as int, i as int) + row_changes(
                    i as int,
                    p[i as int],
                    m0.rendered[i as int],
                    j as int,
                ));
            }
            assert(cells_of(self.rendered@[i as int]) =~= p[i as int]);
            i += 1;
        }
        assert(grid_of(self.rendered@) =~= p);
        writes
    }

    /// Brings the rendered grid in line with the pending one and returns the
    /// text that does the same on the terminal.
    pub fn render(&mut self) -> (out: String)
        requires
            old(self).wf(),
        ensures
            final(self)@ == flushed(old(self)@),
            final(self).wf(),
            out@ == frame_seq(changes(old(self)@), old(self)@.width, old(self)@.height),
    {
        let writes = self.diff();
        encode(&writes, self.width, self.height)
    }
}

impl Default for Scr {
    fn default() -> (r: Self)
        ensures
            r.wf(),
            r@.pending == filled(r@.width, r@.height, blank_cell()),
            r@.rendered == filled(r@.width, r@.height, sentinel_cell()),
    {
        Scr::new()
    }
}

} // verus!
