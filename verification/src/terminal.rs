//! The character grid behind the terminal widget: a VT100/ANSI screen model.
//!
//! The byte stream of the shell is cut into print / control / CSI / ESC
//! events by an escape-sequence parser; each event is applied here to the
//! grid of cells, the cursor, the current pen (SGR state) and the scroll
//! region.  Every operation is stated over the abstract [`GridModel`].
use vstd::prelude::*;
use vstd::utf8::encode_utf8;

use crate::keys::{Key, KeyEvent, Modifiers, NamedKey};

verus! {

// ── Cells and colours ───────────────────────────────────────────────────

/// One character cell of the terminal grid.
#[derive(Clone, Copy, Debug)]
pub struct TermCell {
    pub ch: char,
    pub fg: [u8; 3],
    pub bg: Option<[u8; 3]>,
    pub bold: bool,
}

/// The drawing state that SGR sequences change: colours and weight.
#[derive(Clone, Copy, Debug)]
pub struct Pen {
    pub fg: [u8; 3],
    pub bg: Option<[u8; 3]>,
    pub bold: bool,
}

/// The foreground colour of text that no SGR sequence has coloured.
pub open spec fn default_fg() -> [u8; 3] {
    [204u8, 204u8, 204u8]
}

/// The pen after a reset (`CSI 0 m`).
pub open spec fn default_pen() -> Pen {
    Pen { fg: default_fg(), bg: None, bold: false }
}

/// A blank cell: a space in the default colours.
pub open spec fn blank_cell() -> TermCell {
    TermCell { ch: ' ', fg: default_fg(), bg: None, bold: false }
}

/// The cell that printing `c` with pen `p` leaves.
pub open spec fn pen_cell(c: char, p: Pen) -> TermCell {
    TermCell { ch: c, fg: p.fg, bg: p.bg, bold: p.bold }
}

impl Default for TermCell {
    fn default() -> (c: Self)
        ensures
            c == blank_cell(),
    {
        TermCell { ch: ' ', fg: [204, 204, 204], bg: None, bold: false }
    }
}

fn default_pen_exec() -> (p: Pen)
    ensures
        p == default_pen(),
{
    Pen { fg: [204, 204, 204], bg: None, bold: false }
}

/// The sixteen standard colours (indices 0..16 of the 256-colour palette;
/// SGR 30–37 / 40–47 use the first eight, SGR 90–97 the last eight).
pub open spec fn standard_color(n: int) -> [u8; 3] {
    if n == 0 {
        [0u8, 0u8, 0u8]
    } else if n == 1 {
        [205u8, 49u8, 49u8]
    } else if n == 2 {
        [13u8, 188u8, 121u8]
    } else if n == 3 {
        [229u8, 229u8, 16u8]
    } else if n == 4 {
        [36u8, 114u8, 200u8]
    } else if n == 5 {
        [188u8, 63u8, 188u8]
    } else if n == 6 {
        [17u8, 168u8, 205u8]
    } else if n == 7 {
        [204u8, 204u8, 204u8]
    } else if n == 8 {
        [128u8, 128u8, 128u8]
    } else if n == 9 {
        [255u8, 0u8, 0u8]
    } else if n == 10 {
        [0u8, 255u8, 0u8]
    } else if n == 11 {
        [255u8, 255u8, 0u8]
    } else if n == 12 {
        [0u8, 0u8, 255u8]
    } else if n == 13 {
        [255u8, 0u8, 255u8]
    } else if n == 14 {
        [0u8, 255u8, 255u8]
    } else {
        [255u8, 255u8, 255u8]
    }
}

/// One axis of the 6×6×6 colour cube: level 0 is black, the others step by 40 from 95.
pub open spec fn cube_level(v: int) -> int {
    if v == 0 {
        0
    } else {
        55 + 40 * v
    }
}

/// Whether the 256-colour lookup of `n` stays within a byte: true of the whole
/// palette 0..=255; beyond it the grey ramp formula is applied to `(n - 232) mod 256`.
pub open spec fn color_index_ok(n: u16) -> bool {
    n < 232 || (n - 232) % 256 <= 24
}

/// The xterm 256-colour palette: 16 standard colours, the 6×6×6 cube, the grey ramp.
pub open spec fn ansi_color(n: u16) -> [u8; 3] {
    if n < 16 {
        standard_color(n as int)
    } else if n < 232 {
        let i = n - 16;
        [cube_level(i / 36) as u8, cube_level((i % 36) / 6) as u8, cube_level(i % 6) as u8]
    } else {
        let v = (8 + 10 * ((n - 232) % 256)) as u8;
        [v, v, v]
    }
}

fn standard_color_exec(n: u16) -> (c: [u8; 3])
    requires
        n < 16,
    ensures
        c == standard_color(n as int),
{
    match n {
        0 => [0, 0, 0],
        1 => [205, 49, 49],
        2 => [13, 188, 121],
        3 => [229, 229, 16],
        4 => [36, 114, 200],
        5 => [188, 63, 188],
        6 => [17, 168, 205],
        7 => [204, 204, 204],
        8 => [128, 128, 128],
        9 => [255, 0, 0],
        10 => [0, 255, 0],
        11 => [255, 255, 0],
        12 => [0, 0, 255],
        13 => [255, 0, 255],
        14 => [0, 255, 255],
        _ => [255, 255, 255],
    }
}

fn cube_level_exec(v: u8) -> (r: u8)
    requires
        v <= 5,
    ensures
        r as int == cube_level(v as int),
{
    if v == 0 {
        0
    } else {
        55 + 40 * v
    }
}

/// Maps an index of the 256-colour palette to RGB.
pub fn ansi_256_to_rgb(n: u16) -> (c: [u8; 3])
    requires
        color_index_ok(n),
    ensures
        c == ansi_color(n),
{
    if n < 16 {
        standard_color_exec(n)
    } else if n < 232 {
        let idx: u8 = (n - 16) as u8;
        let r: u8 = idx / 36;
        let g: u8 = (idx % 36) / 6;
        let b: u8 = idx % 6;
        [cube_level_exec(r), cube_level_exec(g), cube_level_exec(b)]
    } else {
        let k: u8 = ((n - 232) % 256) as u8;
        let v: u8 = 8 + 10 * k;
        [v, v, v]
    }
}

// ── Integer helpers ─────────────────────────────────────────────────────

/// `n.saturating_sub(1)`: the last valid index of a length, or 0.
pub open spec fn last(n: int) -> int {
    if n > 0 {
        n - 1
    } else {
        0
    }
}

pub open spec fn min(a: int, b: int) -> int {
    if a <= b {
        a
    } else {
        b
    }
}

/// `a.saturating_sub(b)` on non-negative integers.
pub open spec fn sat_sub(a: int, b: int) -> int {
    if a >= b {
        a - b
    } else {
        0
    }
}

/// The largest number of rows or columns a grid can have: a row (or the list of
/// rows) longer than this could not be allocated.
pub open spec fn dim_limit() -> int {
    usize::MAX as int / 16
}

// ── The abstract grid ───────────────────────────────────────────────────

/// The abstract state of a terminal grid.
#[verifier::ext_equal]
pub struct GridModel {
    pub cells: Seq<Seq<TermCell>>,
    pub rows: int,
    pub cols: int,
    pub cursor_row: int,
    pub cursor_col: int,
    pub pen: Pen,
    pub scroll_top: int,
    pub scroll_bottom: int,
}

/// A row of `n` blank cells.
pub open spec fn blank_row(n: int) -> Seq<TermCell> {
    Seq::new(n as nat, |_i: int| blank_cell())
}

impl GridModel {
    /// The grid's invariant: `rows` rows (at most one when `rows` is 0) of `cols`
    /// cells each; the cursor row and the scroll region within the rows; the cursor
    /// column at most `cols` (it rests at `cols` after a character in the last column).
    pub open spec fn ok(self) -> bool {
        &&& 0 <= self.rows <= dim_limit()
        &&& 0 <= self.cols <= dim_limit()
        &&& (self.rows > 0 ==> self.cells.len() == self.rows)
        &&& (self.rows == 0 ==> self.cells.len() <= 1)
        &&& forall|r: int| 0 <= r < self.cells.len() ==> #[trigger] self.cells[r].len() == self.cols
        &&& 0 <= self.cursor_row <= last(self.rows)
        &&& 0 <= self.cursor_col <= self.cols
        &&& 0 <= self.scroll_top <= last(self.rows)
        &&& 0 <= self.scroll_bottom <= last(self.rows)
    }

    pub open spec fn with_cells(self, cells: Seq<Seq<TermCell>>) -> GridModel {
        GridModel { cells: cells, ..self }
    }

    pub open spec fn with_cursor(self, row: int, col: int) -> GridModel {
        GridModel { cursor_row: row, cursor_col: col, ..self }
    }

    pub open spec fn with_pen(self, pen: Pen) -> GridModel {
        GridModel { pen: pen, ..self }
    }

    /// Blanks every cell `(r, c)` for which `sel(r, c)` holds.
    pub open spec fn blank_where(self, sel: spec_fn(int, int) -> bool) -> GridModel {
        self.with_cells(
            Seq::new(
                self.cells.len(),
                |r: int|
                    Seq::new(
                        self.cells[r].len(),
                        |c: int|
                            if sel(r, c) {
                                blank_cell()
                            } else {
                                self.cells[r][c]
                            },
                    ),
            ),
        )
    }
}

/// A fresh grid: `rows` blank rows of `cols` cells, cursor at the origin, the
/// default pen, the scroll region the whole screen.
pub open spec fn new_grid(rows: int, cols: int) -> GridModel {
    GridModel {
        cells: Seq::new(rows as nat, |_r: int| blank_row(cols)),
        rows: rows,
        cols: cols,
        cursor_row: 0,
        cursor_col: 0,
        pen: default_pen(),
        scroll_top: 0,
        scroll_bottom: last(rows),
    }
}

/// The grid after a resize: rows and columns cut or padded with blanks, the
/// cursor clamped into the new size, the scroll region reset to the whole screen.
pub open spec fn resize_spec(m: GridModel, rows: int, cols: int) -> GridModel {
    GridModel {
        cells: Seq::new(
            rows as nat,
            |r: int|
                if r < m.cells.len() {
                    Seq::new(
                        cols as nat,
                        |c: int|
                            if c < m.cells[r].len() {
                                m.cells[r][c]
                            } else {
                                blank_cell()
                            },
                    )
                } else {
                    blank_row(cols)
                },
        ),
        rows: rows,
        cols: cols,
        cursor_row: min(m.cursor_row, last(rows)),
        cursor_col: min(m.cursor_col, last(cols)),
        pen: m.pen,
        scroll_top: 0,
        scroll_bottom: last(rows),
    }
}

/// Scrolling the region up by one line: its top line leaves, a blank line enters
/// at its bottom.  Nothing happens unless the region spans two lines or more.
pub open spec fn scroll_up_spec(m: GridModel) -> GridModel {
    if m.scroll_top < m.scroll_bottom && m.scroll_bottom < m.rows {
        m.with_cells(m.cells.remove(m.scroll_top).insert(m.scroll_bottom, blank_row(m.cols)))
    } else {
        m
    }
}

/// Line feed: at the bottom of the scroll region the region scrolls; elsewhere
/// the cursor moves down one row unless it is on the last row.
pub open spec fn newline_spec(m: GridModel) -> GridModel {
    if m.cursor_row == m.scroll_bottom {
        scroll_up_spec(m)
    } else if m.cursor_row + 1 < m.rows {
        m.with_cursor(m.cursor_row + 1, m.cursor_col)
    } else {
        m
    }
}

/// Printing a character: past the last column the cursor wraps to the start of
/// the next line first; the character is written with the current pen and the
/// cursor advances.
pub open spec fn print_spec(m: GridModel, c: char) -> GridModel {
    let m1 = if m.cursor_col >= m.cols {
        newline_spec(m.with_cursor(m.cursor_row, 0))
    } else {
        m
    };
    if m1.cursor_row < m1.rows && m1.cursor_col < m1.cols {
        m1.with_cells(
            m1.cells.update(
                m1.cursor_row,
                m1.cells[m1.cursor_row].update(m1.cursor_col, pen_cell(c, m1.pen)),
            ),
        ).with_cursor(m1.cursor_row, m1.cursor_col + 1)
    } else {
        m1
    }
}

/// C0 controls: LF, CR, BS and HT move the cursor; everything else is ignored.
pub open spec fn execute_spec(m: GridModel, byte: u8) -> GridModel {
    if byte == 0x0a {
        newline_spec(m)
    } else if byte == 0x0d {
        m.with_cursor(m.cursor_row, 0)
    } else if byte == 0x08 {
        m.with_cursor(m.cursor_row, sat_sub(m.cursor_col, 1))
    } else if byte == 0x09 {
        let next = (m.cursor_col / 8 + 1) * 8;
        m.with_cursor(m.cursor_row, if next >= m.cols { last(m.cols) } else { next })
    } else {
        m
    }
}


/// Erase in display (`CSI n J`): 0 from the cursor to the end of the screen,
/// 1 from the start of the screen to the cursor (inclusive), 2 and 3 everything.
pub open spec fn erase_display_spec(m: GridModel, mode: u16) -> GridModel {
    let cr = m.cursor_row;
    let cc = m.cursor_col;
    if mode == 0 {
        m.blank_where(|r: int, c: int| (r == cr && c >= cc) || r > cr)
    } else if mode == 1 {
        m.blank_where(|r: int, c: int| r < cr || (r == cr && c <= cc))
    } else if mode == 2 || mode == 3 {
        m.blank_where(|r: int, c: int| true)
    } else {
        m
    }
}

/// The inputs on which erasing in display indexes a row that is not there: the
/// cursor row missing from a grid of 0 rows, or mode 1 on a grid of 0 columns.
pub open spec fn erase_display_defined(m: GridModel, mode: u16) -> bool {
    &&& (mode == 0 && m.cursor_col < m.cols ==> m.cursor_row < m.cells.len())
    &&& (mode == 1 ==> m.cursor_row < m.cells.len() && m.cols > 0)
}

/// Erase in line (`CSI n K`): 0 from the cursor to the end of the line, 1 from
/// the start of the line to the cursor (inclusive), 2 the whole line.
pub open spec fn erase_line_spec(m: GridModel, mode: u16) -> GridModel {
    let cr = m.cursor_row;
    let cc = m.cursor_col;
    if mode == 0 {
        m.blank_where(|r: int, c: int| r == cr && c >= cc)
    } else if mode == 1 {
        m.blank_where(|r: int, c: int| r == cr && c <= cc)
    } else if mode == 2 {
        m.blank_where(|r: int, c: int| r == cr)
    } else {
        m
    }
}

/// The inputs on which erasing in line indexes a row or cell that is not there.
pub open spec fn erase_line_defined(m: GridModel, mode: u16) -> bool {
    &&& (mode == 0 && m.cursor_col < m.cols ==> m.cursor_row < m.cells.len())
    &&& (mode == 1 ==> m.cursor_row < m.cells.len() && m.cols > 0)
    &&& (mode == 2 && m.cols > 0 ==> m.cursor_row < m.cells.len())
}

/// `new` is `old` with exactly the cells selected by `sel` blanked.
pub open spec fn blanked(
    old: Seq<Seq<TermCell>>,
    new: Seq<Seq<TermCell>>,
    sel: spec_fn(int, int) -> bool,
) -> bool {
    &&& new.len() == old.len()
    &&& forall|r: int| 0 <= r < old.len() ==> #[trigger] new[r].len() == old[r].len()
    &&& forall|r: int, c: int|
        0 <= r < old.len() && 0 <= c < old[r].len() ==> #[trigger] new[r][c] == if sel(r, c) {
            blank_cell()
        } else {
            old[r][c]
        }
}

proof fn lemma_blanked(m: GridModel, new: Seq<Seq<TermCell>>, sel: spec_fn(int, int) -> bool)
    requires
        blanked(m.cells, new, sel),
    ensures
        new =~~= m.blank_where(sel).cells,
{
    assert forall|r: int| 0 <= r < new.len() implies #[trigger] new[r] =~= m.blank_where(sel).cells[r] by {
        assert forall|c: int| 0 <= c < new[r].len() implies new[r][c] == #[trigger] m.blank_where(
            sel,
        ).cells[r][c] by {}
    }
}


proof fn lemma_blanked_trans(
    a: Seq<Seq<TermCell>>,
    b: Seq<Seq<TermCell>>,
    c: Seq<Seq<TermCell>>,
    s1: spec_fn(int, int) -> bool,
    s2: spec_fn(int, int) -> bool,
)
    requires
        blanked(a, b, s1),
        blanked(b, c, s2),
    ensures
        blanked(a, c, |r: int, k: int| s1(r, k) || s2(r, k)),
{
    assert forall|r: int, k: int| 0 <= r < a.len() && 0 <= k < a[r].len() implies #[trigger] c[r][k]
        == if s1(r, k) || s2(r, k) {
        blank_cell()
    } else {
        a[r][k]
    } by {
        assert(b[r].len() == a[r].len());
        assert(c[r][k] == if s2(r, k) { blank_cell() } else { b[r][k] });
        assert(b[r][k] == if s1(r, k) { blank_cell() } else { a[r][k] });
    }
    assert forall|r: int| 0 <= r < a.len() implies #[trigger] c[r].len() == a[r].len() by {
        assert(b[r].len() == a[r].len());
    }
}

proof fn lemma_blanked_equiv(
    a: Seq<Seq<TermCell>>,
    b: Seq<Seq<TermCell>>,
    s1: spec_fn(int, int) -> bool,
    s2: spec_fn(int, int) -> bool,
)
    requires
        blanked(a, b, s1),
        forall|r: int, k: int| #![trigger a[r][k]] 0 <= r < a.len() && 0 <= k < a[r].len() ==> s1(r, k) == s2(r, k),
    ensures
        blanked(a, b, s2),
{
    assert forall|r: int, k: int| 0 <= r < a.len() && 0 <= k < a[r].len() implies #[trigger] b[r][k]
        == if s2(r, k) {
        blank_cell()
    } else {
        a[r][k]
    } by {
        assert(s1(r, k) == s2(r, k));
    }
}

proof fn lemma_blanked_refl(a: Seq<Seq<TermCell>>)
    ensures
        blanked(a, a, |r: int, k: int| false),
{
}


// ── SGR (colours and weight) ────────────────────────────────────────────

/// The effect of one SGR parameter that takes no arguments.
pub open spec fn sgr_single(p: u16, pen: Pen) -> Pen {
    if p == 0 {
        default_pen()
    } else if p == 1 {
        Pen { bold: true, ..pen }
    } else if p == 22 {
        Pen { bold: false, ..pen }
    } else if 30 <= p <= 37 {
        Pen { fg: standard_color(p - 30), ..pen }
    } else if p == 39 {
        Pen { fg: default_fg(), ..pen }
    } else if 40 <= p <= 47 {
        Pen { bg: Some(standard_color(p - 40)), ..pen }
    } else if p == 49 {
        Pen { bg: None, ..pen }
    } else if 90 <= p <= 97 {
        Pen { fg: standard_color(p - 82), ..pen }
    } else {
        pen
    }
}

/// The pen after the SGR parameters from index `i` on: `38;5;n` and `48;5;n`
/// set a 256-colour foreground or background and consume three parameters
/// (`38;x` with `x ≠ 5` consumes two and sets nothing); every other parameter
/// is read on its own.
pub open spec fn sgr_from(params: Seq<Seq<u16>>, i: nat, pen: Pen) -> Pen
    decreases params.len() - i,
{
    if i >= params.len() {
        pen
    } else {
        let p = params[i as int][0];
        if p == 38 || p == 48 {
            if i + 1 >= params.len() {
                pen
            } else if params[i + 1int][0] != 5 {
                sgr_from(params, i + 2, pen)
            } else if i + 2 >= params.len() {
                pen
            } else {
                let c = ansi_color(params[i + 2int][0]);
                sgr_from(
                    params,
                    i + 3,
                    if p == 38 {
                        Pen { fg: c, ..pen }
                    } else {
                        Pen { bg: Some(c), ..pen }
                    },
                )
            }
        } else {
            sgr_from(params, i + 1, sgr_single(p, pen))
        }
    }
}

/// The SGR parameters from index `i` on can be read: every parameter that is
/// read has a value, and every 256-colour index that is looked up is in range
/// (see [`color_index_ok`]).
pub open spec fn sgr_ok(params: Seq<Seq<u16>>, i: nat) -> bool
    decreases params.len() - i,
{
    if i >= params.len() {
        true
    } else if params[i as int].len() == 0 {
        false
    } else {
        let p = params[i as int][0];
        if p == 38 || p == 48 {
            if i + 1 >= params.len() {
                true
            } else if params[i + 1int].len() == 0 {
                false
            } else if params[i + 1int][0] != 5 {
                sgr_ok(params, i + 2)
            } else if i + 2 >= params.len() {
                true
            } else {
                params[i + 2int].len() > 0 && color_index_ok(params[i + 2int][0]) && sgr_ok(params, i + 3)
            }
        } else {
            sgr_ok(params, i + 1)
        }
    }
}

// ── CSI sequences ───────────────────────────────────────────────────────

/// Parameter `idx`, or `default` when it is absent or 0.
pub open spec fn param_or(params: Seq<Seq<u16>>, idx: int, default: u16) -> u16 {
    if 0 <= idx < params.len() && params[idx][0] != 0 {
        params[idx][0]
    } else {
        default
    }
}

/// Parameter `idx` can be read: absent, or present with a value.
pub open spec fn param_defined(params: Seq<Seq<u16>>, idx: int) -> bool {
    0 <= idx < params.len() ==> params[idx].len() > 0
}

/// Applies `f` to `m` `n` times.
pub open spec fn iterate(f: spec_fn(GridModel) -> GridModel, m: GridModel, n: nat) -> GridModel
    decreases n,
{
    if n == 0 {
        m
    } else {
        f(iterate(f, m, (n - 1) as nat))
    }
}

/// One line inserted at the cursor row (`CSI L`): within the scroll region the
/// line at its bottom leaves and a blank line enters at the cursor row.
pub open spec fn insert_line_step(m: GridModel) -> GridModel {
    if m.cursor_row <= m.scroll_bottom && m.scroll_bottom < m.rows {
        let c1 = if m.scroll_bottom < m.cells.len() {
            m.cells.remove(m.scroll_bottom)
        } else {
            m.cells
        };
        m.with_cells(c1.insert(m.cursor_row, blank_row(m.cols)))
    } else {
        m
    }
}

/// One line deleted at the cursor row (`CSI M`): the cursor row leaves and a
/// blank line enters at the bottom of the scroll region.
pub open spec fn delete_line_step(m: GridModel) -> GridModel {
    if m.cursor_row < m.cells.len() {
        let c1 = m.cells.remove(m.cursor_row);
        m.with_cells(c1.insert(min(m.scroll_bottom, c1.len() as int), blank_row(m.cols)))
    } else {
        m
    }
}

/// One character deleted at the cursor (`CSI P`): the rest of the line shifts
/// left and a blank enters at its end.
pub open spec fn delete_char_step(m: GridModel) -> GridModel {
    let row = m.cells[m.cursor_row];
    if m.cursor_col < row.len() {
        m.with_cells(m.cells.update(m.cursor_row, row.remove(m.cursor_col).push(blank_cell())))
    } else {
        m
    }
}

/// One blank inserted at the cursor (`CSI @`): the rest of the line shifts
/// right and its last cell falls off.
pub open spec fn insert_char_step(m: GridModel) -> GridModel {
    let row = m.cells[m.cursor_row].insert(m.cursor_col, blank_cell());
    let cut = if m.cols <= row.len() {
        row.subrange(0, m.cols)
    } else {
        row
    };
    m.with_cells(m.cells.update(m.cursor_row, cut))
}

/// The decimal digits of `n` in ASCII.
pub open spec fn decimal(n: nat) -> Seq<u8>
    decreases n,
{
    if n < 10 {
        seq![(48 + n) as u8]
    } else {
        decimal(n / 10).push((48 + n % 10) as u8)
    }
}

/// The cursor position report `ESC [ row ; col R`, 1-based.
pub open spec fn cpr_response(m: GridModel) -> Seq<u8> {
    seq![0x1bu8, 0x5bu8] + decimal((m.cursor_row + 1) as nat) + seq![0x3bu8] + decimal(
        (m.cursor_col + 1) as nat,
    ) + seq![0x52u8]
}

/// The grid after the CSI sequence with final character `action`.  Sequences
/// with a `?` intermediate (DEC private modes) are ignored, as are unknown ones.
pub open spec fn csi_spec(m: GridModel, params: Seq<Seq<u16>>, inter: Seq<u8>, action: char) -> GridModel {
    let n = param_or(params, 0, 1) as int;
    if inter.contains(0x3fu8) {
        m
    } else if action == 'A' {
        m.with_cursor(sat_sub(m.cursor_row, n), m.cursor_col)
    } else if action == 'B' {
        m.with_cursor(min(m.cursor_row + n, last(m.rows)), m.cursor_col)
    } else if action == 'C' {
        m.with_cursor(m.cursor_row, min(m.cursor_col + n, last(m.cols)))
    } else if action == 'D' {
        m.with_cursor(m.cursor_row, sat_sub(m.cursor_col, n))
    } else if action == 'H' || action == 'f' {
        m.with_cursor(
            min(sat_sub(n, 1), last(m.rows)),
            min(sat_sub(param_or(params, 1, 1) as int, 1), last(m.cols)),
        )
    } else if action == 'J' {
        erase_display_spec(m, param_or(params, 0, 0))
    } else if action == 'K' {
        erase_line_spec(m, param_or(params, 0, 0))
    } else if action == 'm' {
        if params.len() == 0 {
            m.with_pen(default_pen())
        } else {
            m.with_pen(sgr_from(params, 0, m.pen))
        }
    } else if action == 'r' {
        GridModel {
            scroll_top: min(sat_sub(n, 1), last(m.rows)),
            scroll_bottom: min(
                sat_sub(param_or(params, 1, (m.rows % 0x10000) as u16) as int, 1),
                last(m.rows),
            ),
            ..m
        }
    } else if action == 'L' {
        iterate(|g: GridModel| insert_line_step(g), m, n as nat)
    } else if action == 'M' {
        iterate(|g: GridModel| delete_line_step(g), m, n as nat)
    } else if action == 'P' {
        iterate(|g: GridModel| delete_char_step(g), m, n as nat)
    } else if action == '@' {
        iterate(|g: GridModel| insert_char_step(g), m, n as nat)
    } else if action == 'd' {
        m.with_cursor(min(sat_sub(n, 1), last(m.rows)), m.cursor_col)
    } else if action == 'G' {
        m.with_cursor(m.cursor_row, min(sat_sub(n, 1), last(m.cols)))
    } else {
        m
    }
}

/// The bytes a CSI sequence asks to send back to the program: the cursor
/// position report for `CSI 6 n`, nothing otherwise.
pub open spec fn csi_reply(m: GridModel, params: Seq<Seq<u16>>, inter: Seq<u8>, action: char) -> Option<Seq<u8>> {
    if !inter.contains(0x3fu8) && action == 'n' && param_or(params, 0, 0) == 6 {
        Some(cpr_response(m))
    } else {
        None
    }
}

/// The inputs on which a CSI sequence can be applied: the parameters it reads
/// have values, the 256-colour indices it looks up are in range, and the rows
/// and cells it edits exist.
pub open spec fn csi_defined(m: GridModel, params: Seq<Seq<u16>>, inter: Seq<u8>, action: char) -> bool {
    inter.contains(0x3fu8) || {
        &&& (action == 'A' || action == 'B' || action == 'C' || action == 'D' || action == 'J'
            || action == 'K' || action == 'L' || action == 'M' || action == 'P' || action == '@'
            || action == 'n' || action == 'd' || action == 'G' || action == 'H' || action == 'f'
            || action == 'r' ==> param_defined(params, 0))
        &&& (action == 'H' || action == 'f' || action == 'r' ==> param_defined(params, 1))
        &&& (action == 'J' ==> erase_display_defined(m, param_or(params, 0, 0)))
        &&& (action == 'K' ==> erase_line_defined(m, param_or(params, 0, 0)))
        &&& (action == 'm' ==> sgr_ok(params, 0))
        &&& (action == 'P' || action == '@' ==> m.cursor_row < m.cells.len())
    }
}

/// The palette codes of the sixteen standard colours give the same pen as
/// the plain codes: `38;5;k` as `30+k` (k < 8) or `90+k-8` (8 ≤ k < 16), and
/// `48;5;k` as `40+k` (k < 8).  `0` resets the pen from any state.
pub proof fn palette_codes_match_plain_codes(k: u16, pen: Pen)
    requires
        k < 16,
    ensures
        sgr_from(seq![seq![38u16], seq![5u16], seq![k]], 0, pen) == sgr_from(
            seq![seq![(if k < 8 { 30 + k } else { 82 + k }) as u16]],
            0,
            pen,
        ),
        k < 8 ==> sgr_from(seq![seq![48u16], seq![5u16], seq![k]], 0, pen) == sgr_from(
            seq![seq![(40 + k) as u16]],
            0,
            pen,
        ),
        sgr_from(seq![seq![0u16]], 0, pen) == default_pen(),
{
    let fg = seq![seq![38u16], seq![5u16], seq![k]];
    let bg = seq![seq![48u16], seq![5u16], seq![k]];
    let plain_fg = seq![seq![(if k < 8 { 30 + k } else { 82 + k }) as u16]];
    let plain_bg = seq![seq![(40 + k) as u16]];
    let reset = seq![seq![0u16]];
    assert(sgr_from(fg, 3, Pen { fg: ansi_color(k), ..pen }) == Pen { fg: ansi_color(k), ..pen });
    assert(sgr_from(bg, 3, Pen { bg: Some(ansi_color(k)), ..pen }) == Pen { bg: Some(ansi_color(k)), ..pen });
    assert(sgr_from(plain_fg, 1, sgr_single(plain_fg[0][0], pen)) == sgr_single(plain_fg[0][0], pen));
    assert(sgr_from(plain_bg, 1, sgr_single(plain_bg[0][0], pen)) == sgr_single(plain_bg[0][0], pen));
    assert(sgr_from(reset, 1, sgr_single(0, pen)) == sgr_single(0, pen));
}

/// What one SGR parameter does to the pen: `0` resets it to the default
/// colours ([204, 204, 204] on no background, not bold); `1` and `22` set and
/// clear bold; `39` and `49` restore the default foreground and background;
/// `30`–`37`, `90`–`97` and `40`–`47` set the foreground or background to a
/// palette colour and leave the rest; any other lone parameter changes
/// nothing.
pub proof fn sgr_codes_set_their_attribute(code: u16, pen: Pen)
    ensures
        sgr_from(seq![seq![0u16]], 0, pen) == (Pen { fg: [204u8, 204u8, 204u8], bg: None, bold: false }),
        sgr_from(seq![seq![1u16]], 0, pen) == (Pen { bold: true, ..pen }),
        sgr_from(seq![seq![22u16]], 0, pen) == (Pen { bold: false, ..pen }),
        sgr_from(seq![seq![39u16]], 0, pen) == (Pen { fg: [204u8, 204u8, 204u8], ..pen }),
        sgr_from(seq![seq![49u16]], 0, pen) == (Pen { bg: None, ..pen }),
        30 <= code <= 37 ==> sgr_from(seq![seq![code]], 0, pen) == (Pen { fg: ansi_color((code - 30) as u16), ..pen }),
        90 <= code <= 97 ==> sgr_from(seq![seq![code]], 0, pen) == (Pen { fg: ansi_color((code - 82) as u16), ..pen }),
        40 <= code <= 47 ==> sgr_from(seq![seq![code]], 0, pen) == (Pen { bg: Some(ansi_color((code - 40) as u16)), ..pen }),
        !(code == 0 || code == 1 || code == 22 || code == 39 || code == 49 || 30 <= code <= 37 || 90 <= code
            <= 97 || 40 <= code <= 47) ==> sgr_from(seq![seq![code]], 0, pen) == pen,
{
    let ps = |c: u16| seq![seq![c]];
    assert(sgr_from(ps(0), 1, sgr_single(0, pen)) == sgr_single(0, pen));
    assert(sgr_from(ps(1), 1, sgr_single(1, pen)) == sgr_single(1, pen));
    assert(sgr_from(ps(22), 1, sgr_single(22, pen)) == sgr_single(22, pen));
    assert(sgr_from(ps(39), 1, sgr_single(39, pen)) == sgr_single(39, pen));
    assert(sgr_from(ps(49), 1, sgr_single(49, pen)) == sgr_single(49, pen));
    assert(sgr_from(ps(code), 1, sgr_single(code, pen)) == sgr_single(code, pen));
    assert(ps(0) == seq![seq![0u16]]);
    assert(ps(1) == seq![seq![1u16]]);
    assert(ps(22) == seq![seq![22u16]]);
    assert(ps(39) == seq![seq![39u16]]);
    assert(ps(49) == seq![seq![49u16]]);
    assert(ps(code) == seq![seq![code]]);
}

/// Several SGR parameters act one after another, left to right: `CSI p ; q m`
/// does what `CSI p m` then `CSI q m` does, for parameters that take no
/// arguments; `CSI m` with no parameter resets the pen and keeps the cells.
pub proof fn sgr_parameters_apply_in_order(m: GridModel, p: u16, q: u16)
    requires
        p != 38 && p != 48,
        q != 38 && q != 48,
    ensures
        sgr_from(seq![seq![p], seq![q]], 0, m.pen) == sgr_from(seq![seq![q]], 0, sgr_from(seq![seq![p]], 0, m.pen)),
        csi_spec(m, seq![seq![p], seq![q]], Seq::empty(), 'm') == csi_spec(
            csi_spec(m, seq![seq![p]], Seq::empty(), 'm'),
            seq![seq![q]],
            Seq::empty(),
            'm',
        ),
        csi_spec(m, Seq::empty(), Seq::empty(), 'm') == m.with_pen(
            Pen { fg: [204u8, 204u8, 204u8], bg: None, bold: false },
        ),
{
    let pq = seq![seq![p], seq![q]];
    let one_p = seq![seq![p]];
    let one_q = seq![seq![q]];
    assert(!Seq::<u8>::empty().contains(0x3fu8));
    let a = sgr_single(p, m.pen);
    assert(sgr_from(pq, 2, sgr_single(q, a)) == sgr_single(q, a));
    assert(sgr_from(pq, 1, a) == sgr_single(q, a));
    assert(sgr_from(one_p, 1, a) == a);
    assert(sgr_from(one_q, 1, sgr_single(q, a)) == sgr_single(q, a));
}

/// The 256-colour palette past the sixteen standard colours: index
/// `16 + 36 r + 6 g + b` (r, g, b below 6) is the colour of the 6×6×6 cube
/// whose channels take the levels 0, 95, 135, 175, 215, 255, and index
/// `232 + k` (k below 24) is the grey 8 + 10 k.
pub proof fn palette_is_cube_then_grey_ramp(r: u16, g: u16, b: u16, k: u16)
    requires
        r < 6,
        g < 6,
        b < 6,
        k < 24,
    ensures
        ({
            let lv = seq![0u8, 95u8, 135u8, 175u8, 215u8, 255u8];
            ansi_color((16 + 36 * r + 6 * g + b) as u16) == [lv[r as int], lv[g as int], lv[b as int]]
        }),
        ansi_color((232 + k) as u16) == [(8 + 10 * k) as u8, (8 + 10 * k) as u8, (8 + 10 * k) as u8],
{
    let i: int = 36 * r + 6 * g + b;
    assert(i / 36 == r && (i % 36) / 6 == g && i % 6 == b) by (nonlinear_arith)
        requires
            i == 36 * r + 6 * g + b,
            0 <= r < 6,
            0 <= g < 6,
            0 <= b < 6,
    ;
    let n = (16 + 36 * r + 6 * g + b) as u16;
    assert(n - 16 == i);
    let lv = seq![0u8, 95u8, 135u8, 175u8, 215u8, 255u8];
    assert(cube_level(r as int) == lv[r as int]);
    assert(cube_level(g as int) == lv[g as int]);
    assert(cube_level(b as int) == lv[b as int]);
}

/// The cursor keys' sequences undo each other while the cursor stays on the
/// screen: `CSI n B` then `CSI n A` comes back to the row, `CSI n A` then
/// `CSI n B` too when the row is at least `n` down, and likewise `CSI n C`
/// and `CSI n D` for the column.  None of them touches the cells, and a move
/// past an edge stops at it.
pub proof fn cursor_moves_undo_each_other(m: GridModel, n: u16)
    requires
        m.ok(),
        n >= 1,
    ensures
        ({
            let mv = |g: GridModel, a: char| csi_spec(g, seq![seq![n]], Seq::empty(), a);
            let (r, c) = (m.cursor_row, m.cursor_col);
            &&& r + n < m.rows ==> mv(mv(m, 'B'), 'A') == m
            &&& r >= n ==> mv(mv(m, 'A'), 'B') == m
            &&& c + n < m.cols ==> mv(mv(m, 'C'), 'D') == m
            &&& c >= n && c < m.cols ==> mv(mv(m, 'D'), 'C') == m
            &&& mv(m, 'A').cursor_row == (if r >= n { r - n } else { 0 })
            &&& mv(m, 'D').cursor_col == (if c >= n { c - n } else { 0 })
            &&& m.rows > 0 ==> mv(m, 'B').cursor_row == (if r + n < m.rows { r + n } else { m.rows - 1 })
            &&& m.cols > 0 ==> mv(m, 'C').cursor_col == (if c + n < m.cols { c + n } else { m.cols - 1 })
            &&& mv(m, 'A').cells == m.cells && mv(m, 'B').cells == m.cells
            &&& mv(m, 'C').cells == m.cells && mv(m, 'D').cells == m.cells
        }),
{
    assert(!Seq::<u8>::empty().contains(0x3fu8));
    assert(param_or(seq![seq![n]], 0, 1) == n);
}

/// Each erase mode blanks its own part of the screen and keeps every other
/// cell: `CSI 0 J` from the cursor to the end of the screen, `CSI 1 J` from
/// the start of the screen to the cursor, `CSI 0 K` from the cursor to the
/// end of its line, `CSI 1 K` from the start of the line to the cursor,
/// `CSI 2 K` the whole line (the cursor's cell included each time).  With no
/// parameter `J` and `K` erase as with `0`.
pub proof fn erase_modes_blank_their_part(m: GridModel, r: int, c: int)
    requires
        0 <= r < m.cells.len(),
        0 <= c < m.cells[r].len(),
    ensures
        ({
            let ed = |a: char, mode: u16| csi_spec(m, seq![seq![mode]], Seq::empty(), a);
            let (cr, cc) = (m.cursor_row, m.cursor_col);
            let was = m.cells[r][c];
            &&& ed('J', 0).cells[r][c] == (if r > cr || (r == cr && c >= cc) { blank_cell() } else { was })
            &&& ed('J', 1).cells[r][c] == (if r < cr || (r == cr && c <= cc) { blank_cell() } else { was })
            &&& ed('K', 0).cells[r][c] == (if r == cr && c >= cc { blank_cell() } else { was })
            &&& ed('K', 1).cells[r][c] == (if r == cr && c <= cc { blank_cell() } else { was })
            &&& ed('K', 2).cells[r][c] == (if r == cr { blank_cell() } else { was })
            &&& csi_spec(m, Seq::empty(), Seq::empty(), 'J') == ed('J', 0)
            &&& csi_spec(m, Seq::empty(), Seq::empty(), 'K') == ed('K', 0)
        }),
{
    assert(!Seq::<u8>::empty().contains(0x3fu8));
    assert(param_or(seq![seq![2u16]], 0, 0) == 2);
    assert(param_or(seq![seq![1u16]], 0, 0) == 1);
    assert(param_or(seq![seq![0u16]], 0, 0) == 0);
    assert(param_or(Seq::empty(), 0, 0) == 0);
}

/// `CSI 2 J` blanks the whole screen; `CSI 0 K` and `CSI 1 K` blank the
/// cursor's line from and up to the cursor, so together (in either order)
/// they blank it as `CSI 2 K` does.  Erasing moves neither the cursor nor
/// changes the size.
pub proof fn erasing_blanks_what_it_covers(m: GridModel)
    requires
        m.ok(),
    ensures
        ({
            let ed = |g: GridModel, a: char, mode: u16| csi_spec(g, seq![seq![mode]], Seq::empty(), a);
            let all = ed(m, 'J', 2);
            &&& forall|r: int, c: int|
                0 <= r < all.cells.len() && 0 <= c < all.cells[r].len() ==> #[trigger] all.cells[r][c]
                    == blank_cell()
            &&& all.cells.len() == m.cells.len()
            &&& all.cursor_row == m.cursor_row && all.cursor_col == m.cursor_col
            &&& ed(ed(m, 'K', 0), 'K', 1) == ed(m, 'K', 2)
            &&& ed(ed(m, 'K', 1), 'K', 0) == ed(m, 'K', 2)
        }),
{
    assert(!Seq::<u8>::empty().contains(0x3fu8));
    assert(param_or(seq![seq![2u16]], 0, 0) == 2);
    assert(param_or(seq![seq![1u16]], 0, 0) == 1);
    assert(param_or(seq![seq![0u16]], 0, 0) == 0);
    let cr = m.cursor_row;
    let cc = m.cursor_col;
    let a = m.blank_where(|r: int, c: int| r == cr && c >= cc);
    let b = m.blank_where(|r: int, c: int| r == cr && c <= cc);
    let w = m.blank_where(|r: int, c: int| r == cr);
    let ab = a.blank_where(|r: int, c: int| r == cr && c <= cc);
    let ba = b.blank_where(|r: int, c: int| r == cr && c >= cc);
    assert(ab.cells =~~= w.cells);
    assert(ba.cells =~~= w.cells);
}

/// Printing a character puts it, in the current pen, at the cursor and moves
/// the cursor one right, when the cursor is inside the line; a backspace
/// then brings the cursor back onto it.
pub proof fn print_writes_at_cursor_and_advances(m: GridModel, ch: char)
    requires
        m.ok(),
        m.cursor_row < m.rows,
        m.cursor_col < m.cols,
    ensures
        ({
            let g = print_spec(m, ch);
            &&& g.cells[m.cursor_row][m.cursor_col] == (TermCell { ch: ch, fg: m.pen.fg, bg: m.pen.bg, bold: m.pen.bold })
            &&& forall|r: int, c: int|
                0 <= r < m.cells.len() && 0 <= c < m.cells[r].len() && (r != m.cursor_row || c != m.cursor_col)
                    ==> #[trigger] g.cells[r][c] == m.cells[r][c]
            &&& g.cursor_row == m.cursor_row && g.cursor_col == m.cursor_col + 1
            &&& execute_spec(g, 0x08).cursor_col == m.cursor_col
        }),
{
}

/// The C0 controls move the cursor and leave everything else: carriage
/// return to column 0, backspace one column left (staying at 0), tab to the
/// next multiple of 8 (or the last column when that stop is past it), line
/// feed one row down when the cursor is neither on the scroll region's
/// bottom nor on the last row; any other control byte does nothing.
pub proof fn control_bytes_move_the_cursor(m: GridModel, byte: u8)
    requires
        0 <= m.cursor_col,
    ensures
        execute_spec(m, 0x0d) == m.with_cursor(m.cursor_row, 0),
        execute_spec(m, 0x08) == m.with_cursor(m.cursor_row, if m.cursor_col > 0 { m.cursor_col - 1 } else { 0 }),
        forall|stop: int|
            m.cursor_col < stop <= m.cursor_col + 8 && #[trigger] (stop % 8) == 0 ==> execute_spec(m, 0x09)
                == m.with_cursor(m.cursor_row, if stop < m.cols { stop } else { last(m.cols) }),
        m.cursor_row != m.scroll_bottom && m.cursor_row + 1 < m.rows ==> execute_spec(m, 0x0a) == m.with_cursor(
            m.cursor_row + 1,
            m.cursor_col,
        ),
        byte != 0x0a && byte != 0x0d && byte != 0x08 && byte != 0x09 ==> execute_spec(m, byte) == m,
{
    let col = m.cursor_col;
    let next = (col / 8 + 1) * 8;
    assert forall|stop: int| col < stop <= col + 8 && #[trigger] (stop % 8) == 0 implies stop == next by {
        assert(stop == next) by (nonlinear_arith)
            requires
                col >= 0,
                col < stop <= col + 8,
                stop % 8 == 0,
                next == (col / 8 + 1) * 8,
        ;
    }
}

/// A line feed on the bottom row of a scroll region of two lines or more
/// scrolls the region: each of its rows takes the row below it, its bottom
/// row is blank, rows outside it stay, and the cursor does not move.
pub proof fn line_feed_at_region_bottom_scrolls(m: GridModel)
    requires
        m.ok(),
        m.cursor_row == m.scroll_bottom,
        m.scroll_top < m.scroll_bottom,
    ensures
        ({
            let g = execute_spec(m, 0x0a);
            let (t, b) = (m.scroll_top, m.scroll_bottom);
            &&& g.cursor_row == m.cursor_row && g.cursor_col == m.cursor_col
            &&& g.cells.len() == m.cells.len()
            &&& forall|k: int| t <= k < b ==> #[trigger] g.cells[k] == m.cells[k + 1]
            &&& g.cells[b] == blank_row(m.cols)
            &&& forall|k: int| 0 <= k < m.cells.len() && (k < t || k > b) ==> #[trigger] g.cells[k] == m.cells[k]
        }),
{
    let c1 = m.cells.remove(m.scroll_top);
    let c2 = c1.insert(m.scroll_bottom, blank_row(m.cols));
    let g = execute_spec(m, 0x0a);
    assert(g.cells == c2);
    assert forall|k: int| m.scroll_top <= k < m.scroll_bottom implies #[trigger] g.cells[k] == m.cells[k + 1] by {
        assert(c2[k] == c1[k]);
    }
    assert forall|k: int| 0 <= k < m.cells.len() && (k < m.scroll_top || k > m.scroll_bottom) implies #[trigger] g.cells[k]
        == m.cells[k] by {
        if k < m.scroll_top {
            assert(c2[k] == c1[k]);
        } else {
            assert(c2[k] == c1[k - 1]);
        }
    }
}

/// A grid like `m` in everything but its cells, and well-formed.
pub open spec fn same_frame(g: GridModel, m: GridModel) -> bool {
    &&& g.ok()
    &&& g.cells.len() == m.cells.len()
    &&& g.rows == m.rows
    &&& g.cols == m.cols
    &&& g.cursor_row == m.cursor_row
    &&& g.cursor_col == m.cursor_col
    &&& g.pen == m.pen
    &&& g.scroll_top == m.scroll_top
    &&& g.scroll_bottom == m.scroll_bottom
}

proof fn lemma_insert_line_step(g: GridModel)
    requires
        g.ok(),
    ensures
        same_frame(insert_line_step(g), g),
{
    let r = insert_line_step(g);
    if g.cursor_row <= g.scroll_bottom && g.scroll_bottom < g.rows {
        let c1 = g.cells.remove(g.scroll_bottom);
        let c2 = c1.insert(g.cursor_row, blank_row(g.cols));
        assert forall|k: int| 0 <= k < c2.len() implies #[trigger] c2[k].len() == g.cols by {
            if k < g.cursor_row {
                assert(c2[k] == c1[k]);
            } else if k > g.cursor_row {
                assert(c2[k] == c1[k - 1]);
            }
        }
    }
}

proof fn lemma_delete_line_step(g: GridModel)
    requires
        g.ok(),
    ensures
        same_frame(delete_line_step(g), g),
{
    if g.cursor_row < g.cells.len() {
        let c1 = g.cells.remove(g.cursor_row);
        let at = min(g.scroll_bottom, c1.len() as int);
        let c2 = c1.insert(at, blank_row(g.cols));
        assert forall|k: int| 0 <= k < c2.len() implies #[trigger] c2[k].len() == g.cols by {
            if k < at {
                assert(c2[k] == c1[k]);
            } else if k > at {
                assert(c2[k] == c1[k - 1]);
            }
        }
    }
}

proof fn lemma_delete_char_step(g: GridModel)
    requires
        g.ok(),
        g.cursor_row < g.cells.len(),
    ensures
        same_frame(delete_char_step(g), g),
{
    let row = g.cells[g.cursor_row];
    if g.cursor_col < row.len() {
        let c2 = g.cells.update(g.cursor_row, row.remove(g.cursor_col).push(blank_cell()));
        assert forall|k: int| 0 <= k < c2.len() implies #[trigger] c2[k].len() == g.cols by {
            if k != g.cursor_row {
                assert(c2[k] == g.cells[k]);
            }
        }
    }
}

proof fn lemma_insert_char_step(g: GridModel)
    requires
        g.ok(),
        g.cursor_row < g.cells.len(),
    ensures
        same_frame(insert_char_step(g), g),
{
    let row = g.cells[g.cursor_row].insert(g.cursor_col, blank_cell());
    let cut = if g.cols <= row.len() {
        row.subrange(0, g.cols)
    } else {
        row
    };
    let c2 = g.cells.update(g.cursor_row, cut);
    assert forall|k: int| 0 <= k < c2.len() implies #[trigger] c2[k].len() == g.cols by {
        if k != g.cursor_row {
            assert(c2[k] == g.cells[k]);
        }
    }
}

/// Repeating a step that keeps the frame of a grid keeps it.
proof fn lemma_iterate_same_frame(f: spec_fn(GridModel) -> GridModel, m: GridModel, n: nat)
    requires
        m.ok(),
        m.cursor_row < m.cells.len() || m.rows == 0,
        forall|g: GridModel|
            #![trigger f(g)]
            same_frame(g, m) && (g.cursor_row < g.cells.len() || g.rows == 0) ==> same_frame(f(g), g),
    ensures
        same_frame(iterate(f, m, n), m),
    decreases n,
{
    if n > 0 {
        lemma_iterate_same_frame(f, m, (n - 1) as nat);
        let g = iterate(f, m, (n - 1) as nat);
        assert(g.cursor_row < g.cells.len() || g.rows == 0);
    }
}

/// The rows after inserting `j` blank lines at row `r` of a region ending at
/// row `b`: rows outside `r..=b` stay, the first `j` rows from `r` are blank,
/// and the others hold the rows that were `j` above them.
pub open spec fn rows_pushed_down(cells: Seq<Seq<TermCell>>, r: int, b: int, j: int, cols: int, k: int) -> Seq<TermCell> {
    if k < r || k > b {
        cells[k]
    } else if k < r + j {
        blank_row(cols)
    } else {
        cells[k - j]
    }
}

proof fn lemma_insert_line_cells(g: GridModel)
    requires
        g.ok(),
        g.cursor_row <= g.scroll_bottom < g.rows,
    ensures
        forall|k: int|
            0 <= k < g.rows ==> #[trigger] insert_line_step(g).cells[k] == rows_pushed_down(
                g.cells,
                g.cursor_row,
                g.scroll_bottom,
                1,
                g.cols,
                k,
            ),
{
    let c1 = g.cells.remove(g.scroll_bottom);
    let c2 = c1.insert(g.cursor_row, blank_row(g.cols));
    assert forall|k: int| 0 <= k < g.rows implies #[trigger] insert_line_step(g).cells[k] == rows_pushed_down(
        g.cells,
        g.cursor_row,
        g.scroll_bottom,
        1,
        g.cols,
        k,
    ) by {
        assert(insert_line_step(g).cells == c2);
        if k < g.cursor_row {
            assert(c2[k] == c1[k]);
        } else if k > g.cursor_row {
            assert(c2[k] == c1[k - 1]);
        }
    }
}

/// `j` blank lines inserted one after another at the cursor row.
pub open spec fn insert_lines(m: GridModel, j: nat) -> GridModel {
    iterate(|g: GridModel| insert_line_step(g), m, j)
}

proof fn lemma_insert_lines_cells(m: GridModel, j: nat)
    requires
        m.ok(),
        m.cursor_row <= m.scroll_bottom < m.rows,
    ensures
        same_frame(insert_lines(m, j), m),
        forall|k: int|
            0 <= k < m.rows ==> #[trigger] insert_lines(m, j).cells[k]
                == rows_pushed_down(m.cells, m.cursor_row, m.scroll_bottom, j as int, m.cols, k),
    decreases j,
{
    if j == 0 {
        assert forall|k: int| 0 <= k < m.rows implies #[trigger] insert_lines(m, j).cells[k] == rows_pushed_down(
            m.cells,
            m.cursor_row,
            m.scroll_bottom,
            j as int,
            m.cols,
            k,
        ) by {}
    } else {
        lemma_insert_lines_cells(m, (j - 1) as nat);
        let g = insert_lines(m, (j - 1) as nat);
        lemma_insert_line_step(g);
        lemma_insert_line_cells(g);
        assert(insert_lines(m, j) == insert_line_step(g));
        assert forall|k: int| 0 <= k < m.rows implies #[trigger] insert_lines(m, j).cells[k] == rows_pushed_down(
            m.cells,
            m.cursor_row,
            m.scroll_bottom,
            j as int,
            m.cols,
            k,
        ) by {
            assert(insert_line_step(g).cells[k] == rows_pushed_down(
                g.cells,
                g.cursor_row,
                g.scroll_bottom,
                1,
                g.cols,
                k,
            ));
            if m.cursor_row < k <= m.scroll_bottom {
                assert(g.cells[k - 1] == rows_pushed_down(
                    m.cells,
                    m.cursor_row,
                    m.scroll_bottom,
                    j - 1,
                    m.cols,
                    k - 1,
                ));
            } else {
                assert(g.cells[k] == rows_pushed_down(
                    m.cells,
                    m.cursor_row,
                    m.scroll_bottom,
                    j - 1,
                    m.cols,
                    k,
                ));
            }
        }
    }
}

/// `CSI n L` with the cursor on row `r` inside the scroll region (ending at
/// row `b`) inserts `n` blank lines there: rows above `r` and below `b` stay,
/// rows `r` to `r + n - 1` (within the region) are blank, and the row that
/// was at `k` is now at `k + n` (the rows pushed past `b` are gone).  So
/// `CSI n L` is `n` times `CSI 1 L`.
pub proof fn insert_lines_push_rows_down(m: GridModel, n: u16)
    requires
        m.ok(),
        n >= 1,
        m.cursor_row <= m.scroll_bottom < m.rows,
    ensures
        ({
            let g = csi_spec(m, seq![seq![n]], Seq::empty(), 'L');
            let (r, b) = (m.cursor_row, m.scroll_bottom);
            &&& g.cells.len() == m.cells.len()
            &&& forall|k: int| 0 <= k < m.rows && (k < r || k > b) ==> #[trigger] g.cells[k] == m.cells[k]
            &&& forall|k: int| r <= k <= b && k < r + n ==> #[trigger] g.cells[k] == blank_row(m.cols)
            &&& forall|k: int| r <= k && k + n <= b ==> #[trigger] g.cells[k + n] == m.cells[k]
        }),
        csi_spec(m, seq![seq![n]], Seq::empty(), 'L') == iterate(
            |g: GridModel| csi_spec(g, seq![seq![1u16]], Seq::empty(), 'L'),
            m,
            n as nat,
        ),
{
    let ps = seq![seq![n]];
    assert(!Seq::<u8>::empty().contains(0x3fu8));
    assert(param_or(ps, 0, 1) == n);
    lemma_insert_lines_cells(m, n as nat);
    let g = csi_spec(m, ps, Seq::empty(), 'L');
    assert(g == iterate(|g: GridModel| insert_line_step(g), m, n as nat));
    assert forall|k: int| m.cursor_row <= k && k + n <= m.scroll_bottom implies #[trigger] g.cells[k + n]
        == m.cells[k] by {
        assert(g.cells[k + n] == rows_pushed_down(m.cells, m.cursor_row, m.scroll_bottom, n as int, m.cols, k + n));
    }
    assert forall|k: int| 0 <= k < m.rows && (k < m.cursor_row || k > m.scroll_bottom) implies #[trigger] g.cells[k]
        == m.cells[k] by {
        assert(g.cells[k] == rows_pushed_down(m.cells, m.cursor_row, m.scroll_bottom, n as int, m.cols, k));
    }
    assert forall|k: int| m.cursor_row <= k <= m.scroll_bottom && k < m.cursor_row + n implies #[trigger] g.cells[k]
        == blank_row(m.cols) by {
        assert(g.cells[k] == rows_pushed_down(m.cells, m.cursor_row, m.scroll_bottom, n as int, m.cols, k));
    }
    lemma_single_insert_is_step(m, n as nat);
}

/// `CSI 1` with final character `action`, as a function of the grid.
pub open spec fn csi_once(action: char) -> spec_fn(GridModel) -> GridModel {
    |g: GridModel| csi_spec(g, seq![seq![1u16]], Seq::empty(), action)
}

proof fn lemma_single_insert_is_step(m: GridModel, j: nat)
    ensures
        iterate(|g: GridModel| csi_spec(g, seq![seq![1u16]], Seq::empty(), 'L'), m, j) == iterate(
            |g: GridModel| insert_line_step(g),
            m,
            j,
        ),
    decreases j,
{
    lemma_once_is_step('L', |g: GridModel| insert_line_step(g));
    lemma_repeat_is_steps(m, j, 'L', |g: GridModel| insert_line_step(g));
    assert(csi_once('L') == |g: GridModel| csi_spec(g, seq![seq![1u16]], Seq::empty(), 'L'));
}

/// Repeating `CSI 1 action` is repeating its one step, for the actions that
/// repeat a step.
proof fn lemma_repeat_is_steps(m: GridModel, j: nat, action: char, step: spec_fn(GridModel) -> GridModel)
    requires
        forall|g: GridModel| #[trigger] csi_once(action)(g) == step(g),
    ensures
        iterate(csi_once(action), m, j) == iterate(step, m, j),
    decreases j,
{
    if j > 0 {
        lemma_repeat_is_steps(m, (j - 1) as nat, action, step);
        let g = iterate(step, m, (j - 1) as nat);
        assert(csi_once(action)(g) == step(g));
    }
}

proof fn lemma_once_is_step(action: char, step: spec_fn(GridModel) -> GridModel)
    requires
        action == 'L' && step == (|g: GridModel| insert_line_step(g)) || action == 'M' && step == (|g: GridModel|
            delete_line_step(g)) || action == 'P' && step == (|g: GridModel| delete_char_step(g)) || action == '@'
            && step == (|g: GridModel| insert_char_step(g)),
    ensures
        forall|g: GridModel| #[trigger] csi_once(action)(g) == step(g),
{
    assert forall|g: GridModel| #[trigger] csi_once(action)(g) == step(g) by {
        assert(!Seq::<u8>::empty().contains(0x3fu8));
        assert(param_or(seq![seq![1u16]], 0, 1) == 1);
        assert(iterate(step, g, 1) == step(iterate(step, g, 0)));
    }
}

/// `CSI n L`, `CSI n M`, `CSI n P` and `CSI n @` (insert and delete lines and
/// characters) do `n` times what the same sequence with count 1 does.
pub proof fn counted_edits_repeat_the_single_edit(m: GridModel, n: u16, action: char)
    requires
        n >= 1,
        action == 'L' || action == 'M' || action == 'P' || action == '@',
    ensures
        csi_spec(m, seq![seq![n]], Seq::empty(), action) == iterate(csi_once(action), m, n as nat),
{
    let step = if action == 'L' {
        |g: GridModel| insert_line_step(g)
    } else if action == 'M' {
        |g: GridModel| delete_line_step(g)
    } else if action == 'P' {
        |g: GridModel| delete_char_step(g)
    } else {
        |g: GridModel| insert_char_step(g)
    };
    lemma_once_is_step(action, step);
    lemma_repeat_is_steps(m, n as nat, action, step);
    assert(!Seq::<u8>::empty().contains(0x3fu8));
    assert(param_or(seq![seq![n]], 0, 1) == n);
}

/// `CSI 1 M` with the cursor on row `r` inside the scroll region (ending at
/// row `b`) deletes row `r`: the rows below it up to `b` move up one, a blank
/// row enters at `b`, and rows above `r` or below `b` stay.
pub proof fn delete_line_pulls_rows_up(m: GridModel)
    requires
        m.ok(),
        m.cursor_row <= m.scroll_bottom < m.rows,
    ensures
        ({
            let g = csi_spec(m, seq![seq![1u16]], Seq::empty(), 'M');
            let (r, b) = (m.cursor_row, m.scroll_bottom);
            &&& g.cells.len() == m.cells.len()
            &&& forall|k: int| 0 <= k < m.rows && (k < r || k > b) ==> #[trigger] g.cells[k] == m.cells[k]
            &&& forall|k: int| r <= k < b ==> #[trigger] g.cells[k] == m.cells[k + 1]
            &&& g.cells[b] == blank_row(m.cols)
        }),
{
    lemma_once_is_step('M', |g: GridModel| delete_line_step(g));
    assert(csi_once('M')(m) == csi_spec(m, seq![seq![1u16]], Seq::empty(), 'M'));
    let c1 = m.cells.remove(m.cursor_row);
    let c2 = c1.insert(m.scroll_bottom, blank_row(m.cols));
    assert(delete_line_step(m).cells == c2);
    assert forall|k: int| 0 <= k < m.rows && (k < m.cursor_row || k > m.scroll_bottom) implies #[trigger] c2[k]
        == m.cells[k] by {
        if k < m.cursor_row {
            assert(c2[k] == c1[k]);
        } else {
            assert(c2[k] == c1[k - 1]);
        }
    }
    assert forall|k: int| m.cursor_row <= k < m.scroll_bottom implies #[trigger] c2[k] == m.cells[k + 1] by {
        assert(c2[k] == c1[k]);
    }
}

/// `CSI 1 P` with the cursor on cell `c` of row `r` deletes that cell: the
/// cells after it move left one, a blank enters at the end of the row, and
/// the cells before it and every other row stay.
pub proof fn delete_char_pulls_cells_left(m: GridModel)
    requires
        m.ok(),
        m.cursor_row < m.cells.len(),
        m.cursor_col < m.cols,
    ensures
        ({
            let g = csi_spec(m, seq![seq![1u16]], Seq::empty(), 'P');
            let (r, c) = (m.cursor_row, m.cursor_col);
            &&& g.cells.len() == m.cells.len()
            &&& forall|k: int| 0 <= k < m.cells.len() && k != r ==> #[trigger] g.cells[k] == m.cells[k]
            &&& g.cells[r].len() == m.cols
            &&& forall|k: int| 0 <= k < c ==> #[trigger] g.cells[r][k] == m.cells[r][k]
            &&& forall|k: int| c <= k < m.cols - 1 ==> #[trigger] g.cells[r][k] == m.cells[r][k + 1]
            &&& g.cells[r][m.cols - 1] == blank_cell()
        }),
{
    lemma_once_is_step('P', |g: GridModel| delete_char_step(g));
    assert(csi_once('P')(m) == csi_spec(m, seq![seq![1u16]], Seq::empty(), 'P'));
    let row = m.cells[m.cursor_row];
    let new_row = row.remove(m.cursor_col).push(blank_cell());
    assert(delete_char_step(m).cells == m.cells.update(m.cursor_row, new_row));
    assert forall|k: int| 0 <= k < m.cursor_col implies #[trigger] new_row[k] == row[k] by {}
    assert forall|k: int| m.cursor_col <= k < m.cols - 1 implies #[trigger] new_row[k] == row[k + 1] by {}
}

/// `CSI 1 @` with the cursor on cell `c` of row `r` inserts a blank there:
/// the cells from `c` on move right one (the last falls off), and the cells
/// before it and every other row stay.
pub proof fn insert_char_pushes_cells_right(m: GridModel)
    requires
        m.ok(),
        m.cursor_row < m.cells.len(),
        m.cursor_col < m.cols,
    ensures
        ({
            let g = csi_spec(m, seq![seq![1u16]], Seq::empty(), '@');
            let (r, c) = (m.cursor_row, m.cursor_col);
            &&& g.cells.len() == m.cells.len()
            &&& forall|k: int| 0 <= k < m.cells.len() && k != r ==> #[trigger] g.cells[k] == m.cells[k]
            &&& g.cells[r].len() == m.cols
            &&& forall|k: int| 0 <= k < c ==> #[trigger] g.cells[r][k] == m.cells[r][k]
            &&& g.cells[r][c] == blank_cell()
            &&& forall|k: int| c < k < m.cols ==> #[trigger] g.cells[r][k] == m.cells[r][k - 1]
        }),
{
    lemma_once_is_step('@', |g: GridModel| insert_char_step(g));
    assert(csi_once('@')(m) == csi_spec(m, seq![seq![1u16]], Seq::empty(), '@'));
    let row = m.cells[m.cursor_row].insert(m.cursor_col, blank_cell());
    let cut = row.subrange(0, m.cols);
    assert(insert_char_step(m).cells == m.cells.update(m.cursor_row, cut));
    assert forall|k: int| m.cursor_col < k < m.cols implies #[trigger] cut[k] == m.cells[m.cursor_row][k - 1] by {}
}

/// Every CSI sequence that can be applied keeps the grid well-formed and of
/// its size: in particular `L`, `M`, `P` and `@`, which repeat one step.
pub proof fn csi_keeps_grid_well_formed(m: GridModel, params: Seq<Seq<u16>>, inter: Seq<u8>, action: char)
    requires
        m.ok(),
        csi_defined(m, params, inter, action),
    ensures
        csi_spec(m, params, inter, action).ok(),
        csi_spec(m, params, inter, action).rows == m.rows,
        csi_spec(m, params, inter, action).cols == m.cols,
{
    let n = param_or(params, 0, 1) as nat;
    if !inter.contains(0x3fu8) {
        if action == 'L' {
            assert forall|g: GridModel|
                #![trigger insert_line_step(g)]
                same_frame(g, m) && (g.cursor_row < g.cells.len() || g.rows == 0) implies same_frame(
                insert_line_step(g),
                g,
            ) by {
                lemma_insert_line_step(g);
            }
            lemma_iterate_same_frame(|g: GridModel| insert_line_step(g), m, n);
        } else if action == 'M' {
            assert forall|g: GridModel|
                #![trigger delete_line_step(g)]
                same_frame(g, m) && (g.cursor_row < g.cells.len() || g.rows == 0) implies same_frame(
                delete_line_step(g),
                g,
            ) by {
                lemma_delete_line_step(g);
            }
            lemma_iterate_same_frame(|g: GridModel| delete_line_step(g), m, n);
        } else if action == 'P' {
            assert forall|g: GridModel|
                #![trigger delete_char_step(g)]
                same_frame(g, m) && (g.cursor_row < g.cells.len() || g.rows == 0) implies same_frame(
                delete_char_step(g),
                g,
            ) by {
                lemma_delete_char_step(g);
            }
            lemma_iterate_same_frame(|g: GridModel| delete_char_step(g), m, n);
        } else if action == '@' {
            assert forall|g: GridModel|
                #![trigger insert_char_step(g)]
                same_frame(g, m) && (g.cursor_row < g.cells.len() || g.rows == 0) implies same_frame(
                insert_char_step(g),
                g,
            ) by {
                lemma_insert_char_step(g);
            }
            lemma_iterate_same_frame(|g: GridModel| insert_char_step(g), m, n);
        }
    }
}

/// Resizing a grid to the size it has keeps every cell and the cursor; only
/// the scroll region returns to the whole screen.
pub proof fn resize_to_same_size_keeps_screen(m: GridModel)
    requires
        m.ok(),
        m.rows > 0,
        m.cursor_col < m.cols || m.cols == 0,
    ensures
        resize_spec(m, m.rows, m.cols).cells == m.cells,
        resize_spec(m, m.rows, m.cols).cursor_row == m.cursor_row,
        resize_spec(m, m.rows, m.cols).cursor_col == m.cursor_col,
{
    let r = resize_spec(m, m.rows, m.cols);
    assert forall|i: int| 0 <= i < m.rows implies #[trigger] r.cells[i] == m.cells[i] by {
        assert(r.cells[i] =~= m.cells[i]);
    }
    assert(r.cells =~= m.cells);
}

/// Shrinking a grid and growing it back keeps the cells that fit in the
/// smaller size and blanks the others; the cursor, pulled inside the smaller
/// grid, stays there, and the scroll region is the whole screen again.
pub proof fn shrink_then_grow_keeps_what_fits(m: GridModel, rows: int, cols: int, r: int, c: int)
    requires
        m.ok(),
        0 < rows <= m.rows,
        0 < cols <= m.cols,
        0 <= r < m.rows,
        0 <= c < m.cols,
    ensures
        ({
            let g = resize_spec(resize_spec(m, rows, cols), m.rows, m.cols);
            &&& g.cells.len() == m.rows
            &&& g.cells[r][c] == (if r < rows && c < cols { m.cells[r][c] } else { blank_cell() })
            &&& g.cursor_row == min(m.cursor_row, rows - 1)
            &&& g.cursor_col == min(m.cursor_col, cols - 1)
            &&& g.scroll_top == 0 && g.scroll_bottom == m.rows - 1
        }),
{
    let s1 = resize_spec(m, rows, cols);
    assert(m.cells[r].len() == m.cols);
    if r < rows {
        assert(s1.cells[r].len() == cols);
    }
}

/// Moving the cursor with `CSI row ; col H` and then asking for its position
/// with `CSI 6 n` reports that position, 1-based, when it lies on the screen.
pub proof fn cursor_report_after_move(m: GridModel, row: u16, col: u16)
    requires
        1 <= row <= m.rows,
        1 <= col <= m.cols,
    ensures
        csi_reply(
            csi_spec(m, seq![seq![row], seq![col]], Seq::empty(), 'H'),
            seq![seq![6u16]],
            Seq::empty(),
            'n',
        ) == Some(seq![0x1bu8, 0x5bu8] + decimal(row as nat) + seq![0x3bu8] + decimal(col as nat) + seq![0x52u8]),
{
    let ps = seq![seq![row], seq![col]];
    assert(!Seq::<u8>::empty().contains(0x3fu8));
    assert(param_or(ps, 0, 1) == row);
    assert(param_or(ps, 1, 1) == col);
    assert(param_or(seq![seq![6u16]], 0, 0) == 6);
    let m1 = csi_spec(m, ps, Seq::empty(), 'H');
    assert(m1.cursor_row == row - 1);
    assert(m1.cursor_col == col - 1);
}

/// `CSI top ; bottom r` sets the scroll region to those rows (1-based) and
/// changes nothing else; with no parameters the region is the whole screen.
pub proof fn scroll_region_is_set_as_given(m: GridModel, top: u16, bottom: u16)
    requires
        1 <= top <= m.rows,
        1 <= bottom <= m.rows,
    ensures
        ({
            let g = csi_spec(m, seq![seq![top], seq![bottom]], Seq::empty(), 'r');
            g == GridModel { scroll_top: top - 1, scroll_bottom: bottom - 1, ..m }
        }),
        m.rows < 0x10000 ==> csi_spec(m, Seq::empty(), Seq::empty(), 'r') == (GridModel {
            scroll_top: 0,
            scroll_bottom: m.rows - 1,
            ..m
        }),
{
    let ps = seq![seq![top], seq![bottom]];
    assert(!Seq::<u8>::empty().contains(0x3fu8));
    assert(param_or(ps, 0, 1) == top);
    assert(param_or(ps, 1, (m.rows % 0x10000) as u16) == bottom);
    if m.rows < 0x10000 {
        assert(m.rows % 0x10000 == m.rows);
        assert(param_or(Seq::empty(), 1, (m.rows % 0x10000) as u16) == m.rows);
    }
}

/// `CSI n d` puts the cursor on row `n` and `CSI n G` in column `n`
/// (1-based), keeping the other coordinate and every cell; a count past the
/// last row or column stops there.
pub proof fn absolute_moves_land_where_asked(m: GridModel, n: u16)
    requires
        n >= 1,
    ensures
        csi_spec(m, seq![seq![n]], Seq::empty(), 'd') == m.with_cursor(
            if n <= m.rows { n - 1 } else { last(m.rows) },
            m.cursor_col,
        ),
        csi_spec(m, seq![seq![n]], Seq::empty(), 'G') == m.with_cursor(
            m.cursor_row,
            if n <= m.cols { n - 1 } else { last(m.cols) },
        ),
{
    assert(!Seq::<u8>::empty().contains(0x3fu8));
    assert(param_or(seq![seq![n]], 0, 1) == n);
}

/// Reverse index (`ESC M`): at the top of the scroll region a blank line enters
/// there and the line at the region's bottom leaves; elsewhere the cursor moves up.
pub open spec fn esc_spec(m: GridModel, byte: u8) -> GridModel {
    if byte == 0x4d {
        if m.cursor_row == m.scroll_top {
            let c1 = if m.scroll_bottom < m.cells.len() {
                m.cells.remove(m.scroll_bottom)
            } else {
                m.cells
            };
            m.with_cells(c1.insert(m.scroll_top, blank_row(m.cols)))
        } else {
            m.with_cursor(sat_sub(m.cursor_row, 1), m.cursor_col)
        }
    } else {
        m
    }
}


/// Reverse index (`ESC M`) on the top row of the scroll region scrolls the
/// region down: a blank row enters at its top, each of its other rows takes
/// the row above it, rows outside it stay, and the cursor does not move.
/// Below the region's top it moves the cursor up one row, so that after a
/// line feed inside the region it brings the cursor back.
pub proof fn reverse_index_scrolls_down_at_region_top(m: GridModel)
    requires
        m.ok(),
        m.rows > 0,
        m.scroll_top <= m.scroll_bottom,
    ensures
        m.cursor_row == m.scroll_top ==> {
            let g = esc_spec(m, 0x4d);
            let (t, b) = (m.scroll_top, m.scroll_bottom);
            &&& g.cursor_row == m.cursor_row && g.cursor_col == m.cursor_col
            &&& g.cells.len() == m.cells.len()
            &&& g.cells[t] == blank_row(m.cols)
            &&& forall|k: int| t <= k < b ==> #[trigger] g.cells[k + 1] == m.cells[k]
            &&& forall|k: int| 0 <= k < m.cells.len() && (k < t || k > b) ==> #[trigger] g.cells[k] == m.cells[k]
        },
        m.cursor_row != m.scroll_top ==> esc_spec(m, 0x4d) == m.with_cursor(
            if m.cursor_row > 0 { m.cursor_row - 1 } else { 0 },
            m.cursor_col,
        ),
        m.scroll_top <= m.cursor_row < m.scroll_bottom ==> esc_spec(execute_spec(m, 0x0a), 0x4d) == m,
{
    if m.cursor_row == m.scroll_top {
        let c1 = m.cells.remove(m.scroll_bottom);
        let c2 = c1.insert(m.scroll_top, blank_row(m.cols));
        let g = esc_spec(m, 0x4d);
        assert(g.cells == c2);
        assert forall|k: int| m.scroll_top <= k < m.scroll_bottom implies #[trigger] g.cells[k + 1] == m.cells[k] by {
            assert(c2[k + 1] == c1[k]);
        }
        assert forall|k: int| 0 <= k < m.cells.len() && (k < m.scroll_top || k > m.scroll_bottom) implies #[trigger] g.cells[k]
            == m.cells[k] by {
            if k < m.scroll_top {
                assert(c2[k] == c1[k]);
            } else {
                assert(c2[k] == c1[k - 1]);
            }
        }
    }
}

/// The value of SGR/CSI parameter `idx`, or `default` when it is absent or 0.
fn param_or_exec(params: &Vec<Vec<u16>>, idx: usize, default: u16) -> (v: u16)
    requires
        param_defined(params@.map_values(|p: Vec<u16>| p@), idx as int),
    ensures
        v == param_or(params@.map_values(|p: Vec<u16>| p@), idx as int, default),
{
    let ghost ps = params@.map_values(|p: Vec<u16>| p@);
    if idx < params.len() {
        assert(ps[idx as int] == params@[idx as int]@);
        if params[idx][0] == 0 {
            default
        } else {
            params[idx][0]
        }
    } else {
        default
    }
}

fn contains_byte(s: &[u8], b: u8) -> (r: bool)
    ensures
        r == s@.contains(b),
{
    let mut i: usize = 0;
    while i < s.len()
        invariant
            i <= s@.len(),
            forall|k: int| 0 <= k < i ==> s@[k] != b,
        decreases s@.len() - i,
    {
        if s[i] == b {
            assert(s@[i as int] == b);
            return true;
        }
        i = i + 1;
    }
    false
}

/// Appends the decimal digits of `n`.
fn push_decimal(out: &mut Vec<u8>, n: usize)
    ensures
        final(out)@ == old(out)@ + decimal(n as nat),
    decreases n,
{
    if n >= 10 {
        push_decimal(out, n / 10);
    }
    let d: u8 = (n % 10) as u8;
    out.push(48 + d);
    assert(final(out)@ =~= old(out)@ + decimal(n as nat));
}

fn sgr_single_exec(p: u16, pen: Pen) -> (r: Pen)
    ensures
        r == sgr_single(p, pen),
{
    if p == 0 {
        default_pen_exec()
    } else if p == 1 {
        Pen { bold: true, ..pen }
    } else if p == 22 {
        Pen { bold: false, ..pen }
    } else if 30 <= p && p <= 37 {
        Pen { fg: standard_color_exec(p - 30), ..pen }
    } else if p == 39 {
        Pen { fg: [204, 204, 204], ..pen }
    } else if 40 <= p && p <= 47 {
        Pen { bg: Some(standard_color_exec(p - 40)), ..pen }
    } else if p == 49 {
        Pen { bg: None, ..pen }
    } else if 90 <= p && p <= 97 {
        Pen { fg: standard_color_exec(p - 82), ..pen }
    } else {
        pen
    }
}

/// The pen after a list of SGR parameters (`CSI ... m` with parameters).
fn apply_sgr(params: &Vec<Vec<u16>>, pen: Pen) -> (r: Pen)
    requires
        sgr_ok(params@.map_values(|p: Vec<u16>| p@), 0),
    ensures
        r == sgr_from(params@.map_values(|p: Vec<u16>| p@), 0, pen),
{
    let ghost ps = params@.map_values(|p: Vec<u16>| p@);
    let n = params.len();
    let mut cur = pen;
    let mut i: usize = 0;
    while i < n
        invariant
            n == params@.len() == ps.len(),
            ps == params@.map_values(|p: Vec<u16>| p@),
            i <= n,
            sgr_ok(ps, i as nat),
            sgr_from(ps, i as nat, cur) == sgr_from(ps, 0, pen),
        decreases n - i,
    {
        assert(ps[i as int] == params@[i as int]@);
        let p = params[i][0];
        if p == 38 || p == 48 {
            if i + 1 >= n {
                i = n;
            } else {
                assert(ps[i + 1] == params@[i + 1]@);
                if params[i + 1][0] != 5 {
                    i = i + 2;
                } else if i + 2 >= n {
                    i = n;
                } else {
                    assert(ps[i + 2] == params@[i + 2]@);
                    let c = ansi_256_to_rgb(params[i + 2][0]);
                    if p == 38 {
                        cur = Pen { fg: c, ..cur };
                    } else {
                        cur = Pen { bg: Some(c), ..cur };
                    }
                    i = i + 3;
                }
            }
        } else {
            cur = sgr_single_exec(p, cur);
            i = i + 1;
        }
    }
    cur
}


/// Whether the 256-colour lookup of `n` stays within a byte.
pub fn color_index_in_range(n: u16) -> (b: bool)
    ensures
        b == color_index_ok(n),
{
    n < 232 || (n - 232) % 256 <= 24
}

/// Whether the SGR parameters can be applied (see [`sgr_ok`]).
fn sgr_params_ok(params: &Vec<Vec<u16>>) -> (b: bool)
    ensures
        b == sgr_ok(params@.map_values(|p: Vec<u16>| p@), 0),
{
    let ghost ps = params@.map_values(|p: Vec<u16>| p@);
    let n = params.len();
    let mut i: usize = 0;
    while i < n
        invariant
            n == params@.len() == ps.len(),
            ps == params@.map_values(|p: Vec<u16>| p@),
            i <= n,
            sgr_ok(ps, i as nat) == sgr_ok(ps, 0),
        decreases n - i,
    {
        assert(ps[i as int] == params@[i as int]@);
        if params[i].len() == 0 {
            return false;
        }
        let p = params[i][0];
        if p == 38 || p == 48 {
            if i + 1 >= n {
                i = n;
            } else {
                assert(ps[i + 1] == params@[i + 1]@);
                if params[i + 1].len() == 0 {
                    return false;
                } else if params[i + 1][0] != 5 {
                    i = if i + 2 < n { i + 2 } else { n };
                } else if i + 2 >= n {
                    i = n;
                } else {
                    assert(ps[i + 2] == params@[i + 2]@);
                    if params[i + 2].len() == 0 || !color_index_in_range(params[i + 2][0]) {
                        return false;
                    }
                    i = if i + 3 < n { i + 3 } else { n };
                }
            }
        } else {
            i = i + 1;
        }
    }
    true
}

/// Whether parameter `idx` can be read (absent, or present with a value).
fn param_readable(params: &Vec<Vec<u16>>, idx: usize) -> (b: bool)
    ensures
        b == param_defined(params@.map_values(|p: Vec<u16>| p@), idx as int),
{
    if idx < params.len() {
        assert(params@.map_values(|p: Vec<u16>| p@)[idx as int] == params@[idx as int]@);
        params[idx].len() > 0
    } else {
        true
    }
}

// ── Keyboard input to the program ───────────────────────────────────────

/// The first character of a key's text, or NUL when it has none.
pub open spec fn first_char(s: Seq<char>) -> char {
    if s.len() > 0 {
        s[0]
    } else {
        '\0'
    }
}

/// The control code that Ctrl plus a letter sends: Ctrl+A is 1, ..., Ctrl+Z is 26
/// (either case); `None` for anything that is not an ASCII letter.
pub open spec fn ctrl_code(c: char) -> Option<u8> {
    if 'a' <= c <= 'z' {
        Some((c as int - 'a' as int + 1) as u8)
    } else if 'A' <= c <= 'Z' {
        Some((c as int - 'A' as int + 1) as u8)
    } else {
        None
    }
}

/// The bytes a named key sends to the program (xterm conventions), if any.
pub open spec fn named_key_bytes(k: NamedKey) -> Option<Seq<u8>> {
    match k {
        NamedKey::Enter => Some(seq![0x0du8]),
        NamedKey::Backspace => Some(seq![0x7fu8]),
        NamedKey::Tab => Some(seq![0x09u8]),
        NamedKey::Escape => Some(seq![0x1bu8]),
        NamedKey::ArrowUp => Some(seq![0x1bu8, 0x5bu8, 0x41u8]),
        NamedKey::ArrowDown => Some(seq![0x1bu8, 0x5bu8, 0x42u8]),
        NamedKey::ArrowRight => Some(seq![0x1bu8, 0x5bu8, 0x43u8]),
        NamedKey::ArrowLeft => Some(seq![0x1bu8, 0x5bu8, 0x44u8]),
        NamedKey::Home => Some(seq![0x1bu8, 0x5bu8, 0x48u8]),
        NamedKey::End => Some(seq![0x1bu8, 0x5bu8, 0x46u8]),
        NamedKey::Delete => Some(seq![0x1bu8, 0x5bu8, 0x33u8, 0x7eu8]),
        NamedKey::PageUp => Some(seq![0x1bu8, 0x5bu8, 0x35u8, 0x7eu8]),
        NamedKey::PageDown => Some(seq![0x1bu8, 0x5bu8, 0x36u8, 0x7eu8]),
        _ => None,
    }
}

/// What a key event sends to the program: nothing for releases; Ctrl plus a
/// letter sends its control code; named keys send their sequences; text keys
/// send their text in UTF-8.  `None` means the key is not the terminal's.
pub open spec fn key_bytes_spec(event: KeyEvent, modifiers: Modifiers) -> Option<Seq<u8>> {
    if !event.pressed {
        None
    } else {
        match event.key {
            Key::Character(s) => {
                if modifiers.ctrl && ctrl_code(first_char(s@)) is Some {
                    Some(seq![ctrl_code(first_char(s@))->0])
                } else {
                    Some(encode_utf8(s@))
                }
            },
            Key::Named(k) => named_key_bytes(k),
            Key::Unidentified => None,
        }
    }
}

/// Ctrl plus a letter sends one control byte: `a` (or `A`) sends 1, `b` 2,
/// up to `z` 26, so different letters send different bytes, and Shift does
/// not matter.  Without Ctrl the letter is sent as its UTF-8 text.
pub proof fn ctrl_letters_send_control_codes(c: char, s: String, t: String, mods: Modifiers)
    requires
        'a' <= c <= 'z',
        s@ == seq![c],
        t@ == seq![((c as int) - 32) as char],
    ensures
        mods.ctrl ==> key_bytes_spec(KeyEvent { key: Key::Character(s), pressed: true }, mods) == Some(
            seq![((c as int) - 96) as u8],
        ),
        mods.ctrl ==> key_bytes_spec(KeyEvent { key: Key::Character(t), pressed: true }, mods) == Some(
            seq![((c as int) - 96) as u8],
        ),
        1 <= (c as int) - 96 <= 26,
        !mods.ctrl ==> key_bytes_spec(KeyEvent { key: Key::Character(s), pressed: true }, mods) == Some(
            encode_utf8(seq![c]),
        ),
{
    let u = ((c as int) - 32) as char;
    assert('A' <= u <= 'Z');
    assert(first_char(t@) == u);
    assert(first_char(s@) == c);
}

/// The bytes a pressed named key sends, as a number: its length and its
/// first byte (third, for escape sequences) tell all the sequences apart.
spec fn key_code(b: Seq<u8>) -> int {
    b.len() * 256 + if b.len() >= 3 {
        b[2] as int
    } else {
        b[0] as int
    }
}

/// Each arrow key sends its own xterm sequence whatever the modifiers (up
/// `ESC [ A`, down `ESC [ B`, right `ESC [ C`, left `ESC [ D`), a release
/// sends nothing, and no two named keys send the same bytes.
pub proof fn named_keys_send_their_own_sequences(k1: NamedKey, k2: NamedKey, mods: Modifiers)
    ensures
        key_bytes_spec(KeyEvent { key: Key::Named(NamedKey::ArrowUp), pressed: true }, mods) == Some(
            seq![0x1bu8, 0x5bu8, 0x41u8],
        ),
        key_bytes_spec(KeyEvent { key: Key::Named(NamedKey::ArrowDown), pressed: true }, mods) == Some(
            seq![0x1bu8, 0x5bu8, 0x42u8],
        ),
        key_bytes_spec(KeyEvent { key: Key::Named(NamedKey::ArrowRight), pressed: true }, mods) == Some(
            seq![0x1bu8, 0x5bu8, 0x43u8],
        ),
        key_bytes_spec(KeyEvent { key: Key::Named(NamedKey::ArrowLeft), pressed: true }, mods) == Some(
            seq![0x1bu8, 0x5bu8, 0x44u8],
        ),
        key_bytes_spec(KeyEvent { key: Key::Named(k1), pressed: false }, mods) is None,
        ({
            let b1 = key_bytes_spec(KeyEvent { key: Key::Named(k1), pressed: true }, mods);
            let b2 = key_bytes_spec(KeyEvent { key: Key::Named(k2), pressed: true }, mods);
            k1 != k2 && b1 is Some && b2 is Some ==> b1 != b2
        }),
{
    lemma_key_code(k1);
    lemma_key_code(k2);
}

/// The other named keys send xterm's bytes whatever the modifiers: Enter a
/// carriage return, Backspace DEL (0x7f), Tab a tab, Escape ESC; Home
/// `ESC [ H`, End `ESC [ F`, Delete `ESC [ 3 ~`, Page Up `ESC [ 5 ~` and Page
/// Down `ESC [ 6 ~`.
pub proof fn editing_keys_send_xterm_sequences(mods: Modifiers)
    ensures
        key_bytes_spec(KeyEvent { key: Key::Named(NamedKey::Enter), pressed: true }, mods) == Some(seq![0x0du8]),
        key_bytes_spec(KeyEvent { key: Key::Named(NamedKey::Backspace), pressed: true }, mods) == Some(
            seq![0x7fu8],
        ),
        key_bytes_spec(KeyEvent { key: Key::Named(NamedKey::Tab), pressed: true }, mods) == Some(seq![0x09u8]),
        key_bytes_spec(KeyEvent { key: Key::Named(NamedKey::Escape), pressed: true }, mods) == Some(seq![0x1bu8]),
        key_bytes_spec(KeyEvent { key: Key::Named(NamedKey::Home), pressed: true }, mods) == Some(
            seq![0x1bu8, 0x5bu8, 0x48u8],
        ),
        key_bytes_spec(KeyEvent { key: Key::Named(NamedKey::End), pressed: true }, mods) == Some(
            seq![0x1bu8, 0x5bu8, 0x46u8],
        ),
        key_bytes_spec(KeyEvent { key: Key::Named(NamedKey::Delete), pressed: true }, mods) == Some(
            seq![0x1bu8, 0x5bu8, 0x33u8, 0x7eu8],
        ),
        key_bytes_spec(KeyEvent { key: Key::Named(NamedKey::PageUp), pressed: true }, mods) == Some(
            seq![0x1bu8, 0x5bu8, 0x35u8, 0x7eu8],
        ),
        key_bytes_spec(KeyEvent { key: Key::Named(NamedKey::PageDown), pressed: true }, mods) == Some(
            seq![0x1bu8, 0x5bu8, 0x36u8, 0x7eu8],
        ),
{
}

proof fn lemma_key_code(k: NamedKey)
    ensures
        named_key_bytes(k) is Some ==> key_code(named_key_bytes(k)->0) == match k {
            NamedKey::Enter => 256 + 0x0d,
            NamedKey::Backspace => 256 + 0x7f,
            NamedKey::Tab => 256 + 0x09,
            NamedKey::Escape => 256 + 0x1b,
            NamedKey::ArrowUp => 768 + 0x41,
            NamedKey::ArrowDown => 768 + 0x42,
            NamedKey::ArrowRight => 768 + 0x43,
            NamedKey::ArrowLeft => 768 + 0x44,
            NamedKey::Home => 768 + 0x48,
            NamedKey::End => 768 + 0x46,
            NamedKey::Delete => 1024 + 0x33,
            NamedKey::PageUp => 1024 + 0x35,
            NamedKey::PageDown => 1024 + 0x36,
            _ => 0,
        },
{
}

fn bytes_of(b: &[u8]) -> (v: Vec<u8>)
    ensures
        v@ == b@,
{
    let mut v: Vec<u8> = Vec::new();
    let mut i: usize = 0;
    while i < b.len()
        invariant
            i <= b@.len(),
            v@ == b@.subrange(0, i as int),
        decreases b@.len() - i,
    {
        v.push(b[i]);
        i = i + 1;
        assert(v@ =~= b@.subrange(0, i as int));
    }
    assert(b@.subrange(0, b@.len() as int) =~= b@);
    v
}

/// The bytes to write to the program for a key event, or `None` when the
/// terminal does not take the key.
pub fn key_to_bytes(event: &KeyEvent, modifiers: Modifiers) -> (r: Option<Vec<u8>>)
    ensures
        match r {
            Some(v) => key_bytes_spec(*event, modifiers) == Some(v@),
            None => key_bytes_spec(*event, modifiers) is None,
        },
{
    if !event.pressed {
        return None;
    }
    match &event.key {
        Key::Character(c) => {
            if modifiers.ctrl {
                let s = c.as_str();
                let ch = if s.unicode_len() > 0 {
                    s.get_char(0)
                } else {
                    '\0'
                };
                if 'a' <= ch && ch <= 'z' {
                    let code: u8 = (ch as u32 - 'a' as u32 + 1) as u8;
                    let mut v: Vec<u8> = Vec::new();
                    v.push(code);
                    assert(v@ =~= seq![ctrl_code(first_char(c@))->0]);
                    return Some(v);
                }
                if 'A' <= ch && ch <= 'Z' {
                    let code: u8 = (ch as u32 - 'A' as u32 + 1) as u8;
                    let mut v: Vec<u8> = Vec::new();
                    v.push(code);
                    assert(v@ =~= seq![ctrl_code(first_char(c@))->0]);
                    return Some(v);
                }
            }
            Some(bytes_of(c.as_str().as_bytes()))
        },
        Key::Named(k) => {
            let v: Vec<u8> = match k {
                NamedKey::Enter => vec![0x0d],
                NamedKey::Backspace => vec![0x7f],
                NamedKey::Tab => vec![0x09],
                NamedKey::Escape => vec![0x1b],
                NamedKey::ArrowUp => vec![0x1b, 0x5b, 0x41],
                NamedKey::ArrowDown => vec![0x1b, 0x5b, 0x42],
                NamedKey::ArrowRight => vec![0x1b, 0x5b, 0x43],
                NamedKey::ArrowLeft => vec![0x1b, 0x5b, 0x44],
                NamedKey::Home => vec![0x1b, 0x5b, 0x48],
                NamedKey::End => vec![0x1b, 0x5b, 0x46],
                NamedKey::Delete => vec![0x1b, 0x5b, 0x33, 0x7e],
                NamedKey::PageUp => vec![0x1b, 0x5b, 0x35, 0x7e],
                NamedKey::PageDown => vec![0x1b, 0x5b, 0x36, 0x7e],
                _ => {
                    return None;
                },
            };
            assert(named_key_bytes(*k) == Some(v@));
            Some(v)
        },
        Key::Unidentified => None,
    }
}

// ── The executable grid ─────────────────────────────────────────────────

/// The terminal screen: `rows` × `cols` cells, the cursor, the current pen and
/// the scroll region (top and bottom rows, inclusive).
pub struct TermGrid {
    pub cells: Vec<Vec<TermCell>>,
    pub rows: usize,
    pub cols: usize,
    pub cursor_row: usize,
    pub cursor_col: usize,
    pub pen: Pen,
    pub scroll_top: usize,
    pub scroll_bottom: usize,
}

impl TermGrid {
    /// The abstract state of this grid.
    pub open spec fn model(&self) -> GridModel {
        GridModel {
            cells: self.cells@.map_values(|row: Vec<TermCell>| row@),
            rows: self.rows as int,
            cols: self.cols as int,
            cursor_row: self.cursor_row as int,
            cursor_col: self.cursor_col as int,
            pen: self.pen,
            scroll_top: self.scroll_top as int,
            scroll_bottom: self.scroll_bottom as int,
        }
    }

    /// The grid's invariant (see [`GridModel::ok`]).
    pub open spec fn wf(&self) -> bool {
        self.model().ok()
    }

    /// A blank grid of `rows` × `cols` cells.
    pub fn new(rows: usize, cols: usize) -> (g: Self)
        requires
            rows <= dim_limit(),
            cols <= dim_limit(),
        ensures
            g.wf(),
            g.model() == new_grid(rows as int, cols as int),
    {
        let row = vec![TermCell::default(); cols];
        let mut cells: Vec<Vec<TermCell>> = Vec::new();
        let mut i: usize = 0;
        while i < rows
            invariant
                i <= rows,
                row@ == blank_row(cols as int),
                cells@.len() == i,
                forall|r: int| 0 <= r < i ==> #[trigger] cells@[r]@ == blank_row(cols as int),
            decreases rows - i,
        {
            cells.push(row.clone());
            i = i + 1;
        }
        let g = TermGrid {
            cells,
            rows,
            cols,
            cursor_row: 0,
            cursor_col: 0,
            pen: default_pen_exec(),
            scroll_top: 0,
            scroll_bottom: rows.saturating_sub(1),
        };
        assert(g.model().cells =~~= new_grid(rows as int, cols as int).cells);
        g
    }

    /// Changes the size of the grid: existing rows and columns are cut or padded
    /// with blanks, the cursor is clamped into the new size, and the scroll region
    /// becomes the whole screen.
    pub fn resize(&mut self, rows: usize, cols: usize)
        requires
            old(self).wf(),
            rows <= dim_limit(),
            cols <= dim_limit(),
        ensures
            final(self).wf(),
            final(self).model() == resize_spec(old(self).model(), rows as int, cols as int),
    {
        let ghost m0 = self.model();
        self.rows = rows;
        self.cols = cols;
        if rows <= self.cells.len() {
            self.cells.truncate(rows);
        } else {
            while self.cells.len() < rows
                invariant
                    self.rows == rows,
                    self.cols == cols,
                    self.cursor_row == m0.cursor_row,
                    self.cursor_col == m0.cursor_col,
                    self.pen == m0.pen,
                    m0.cells.len() <= self.cells@.len() <= rows,
                    forall|r: int| 0 <= r < m0.cells.len() ==> #[trigger] self.cells@[r]@ == m0.cells[r],
                    forall|r: int|
                        m0.cells.len() <= r < self.cells@.len() ==> #[trigger] self.cells@[r]@
                            == blank_row(cols as int),
                decreases rows - self.cells@.len(),
            {
                self.cells.push(vec![TermCell::default(); cols]);
            }
        }
        let n = self.cells.len();
        let mut i: usize = 0;
        while i < n
            invariant
                self.rows == rows,
                self.cols == cols,
                self.cursor_row == m0.cursor_row,
                self.cursor_col == m0.cursor_col,
                self.pen == m0.pen,
                n == self.cells@.len() == rows,
                0 <= i <= n,
                forall|r: int|
                    0 <= r < i ==> #[trigger] self.cells@[r]@ == resize_spec(m0, rows as int, cols as int).cells[r],
                forall|r: int|
                    i <= r < n ==> #[trigger] self.cells@[r]@ == (if r < m0.cells.len() {
                        m0.cells[r]
                    } else {
                        blank_row(cols as int)
                    }),
                forall|r: int| 0 <= r < m0.cells.len() ==> #[trigger] m0.cells[r].len() == m0.cols,
            decreases n - i,
        {
            let ghost before = self.cells@[i as int]@;
            self.cells[i].resize(cols, TermCell::default());
            assert(self.cells@[i as int]@ =~= resize_spec(m0, rows as int, cols as int).cells[i as int]);
            i = i + 1;
        }
        let last_row: usize = rows.saturating_sub(1);
        self.cursor_row = if self.cursor_row < last_row {
            self.cursor_row
        } else {
            last_row
        };
        self.cursor_col = if self.cursor_col < cols.saturating_sub(1) {
            self.cursor_col
        } else {
            cols.saturating_sub(1)
        };
        self.scroll_top = 0;
        self.scroll_bottom = last_row;
        let ghost target = resize_spec(m0, rows as int, cols as int);
        assert(self.model().cells =~~= target.cells);
    }

    fn scroll_up(&mut self)
        requires
            old(self).wf(),
        ensures
            final(self).wf(),
            final(self).model() == scroll_up_spec(old(self).model()),
    {
        let ghost m0 = self.model();
        if self.scroll_top < self.scroll_bottom && self.scroll_bottom < self.rows {
            self.cells.remove(self.scroll_top);
            self.cells.insert(self.scroll_bottom, vec![TermCell::default(); self.cols]);
            assert(self.model().cells =~~= scroll_up_spec(m0).cells);
        }
    }

    fn newline(&mut self)
        requires
            old(self).wf(),
        ensures
            final(self).wf(),
            final(self).model() == newline_spec(old(self).model()),
    {
        if self.cursor_row == self.scroll_bottom {
            self.scroll_up();
        } else if self.cursor_row + 1 < self.rows {
            self.cursor_row = self.cursor_row + 1;
        }
    }

    /// Writes a printable character at the cursor with the current pen.
    pub fn print(&mut self, c: char)
        requires
            old(self).wf(),
        ensures
            final(self).wf(),
            final(self).model() == print_spec(old(self).model(), c),
    {
        let ghost m0 = self.model();
        if self.cursor_col >= self.cols {
            self.cursor_col = 0;
            self.newline();
        }
        let ghost m1 = self.model();
        if self.cursor_row < self.rows && self.cursor_col < self.cols {
            let cell = TermCell { ch: c, fg: self.pen.fg, bg: self.pen.bg, bold: self.pen.bold };
            let r = self.cursor_row;
            self.cells[r].set(self.cursor_col, cell);
            self.cursor_col = self.cursor_col + 1;
            assert(self.model().cells =~~= print_spec(m0, c).cells);
        }
    }

    /// Applies a C0 control character (LF, CR, BS, HT; others are ignored).
    pub fn execute(&mut self, byte: u8)
        requires
            old(self).wf(),
        ensures
            final(self).wf(),
            final(self).model() == execute_spec(old(self).model(), byte),
    {
        if byte == 0x0a {
            self.newline();
        } else if byte == 0x0d {
            self.cursor_col = 0;
        } else if byte == 0x08 {
            self.cursor_col = self.cursor_col.saturating_sub(1);
        } else if byte == 0x09 {
            self.cursor_col = ((self.cursor_col / 8) + 1) * 8;
            if self.cursor_col >= self.cols {
                self.cursor_col = self.cols.saturating_sub(1);
            }
        }
    }

    /// Blanks the cells `from..to` of row `row`.
    fn blank_span(&mut self, row: usize, from: usize, to: usize)
        requires
            old(self).wf(),
            row < old(self).cells@.len(),
            from <= to <= old(self).cols,
        ensures
            final(self).wf(),
            final(self).model() == old(self).model().with_cells(final(self).model().cells),
            blanked(
                old(self).model().cells,
                final(self).model().cells,
                |r: int, c: int| r == row && from <= c < to,
            ),
    {
        let ghost m0 = self.model();
        let mut c = from;
        while c < to
            invariant
                self.model() == m0.with_cells(self.model().cells),
                from <= c <= to <= self.cols,
                row < self.cells@.len(),
                blanked(m0.cells, self.model().cells, |r: int, k: int| r == row && from <= k < c),
                m0.ok(),
            decreases to - c,
        {
            let ghost before = self.model().cells;
            assert(before[row as int] == self.cells@[row as int]@);
            assert(before[row as int].len() == m0.cells[row as int].len());
            assert(m0.cells[row as int].len() == m0.cols);
            self.cells[row].set(c, TermCell::default());
            let ghost after = self.model().cells;
            assert(after == before.update(row as int, before[row as int].update(c as int, blank_cell())));
            c = c + 1;
        }
    }

    /// Blanks the whole rows `from..to`.
    fn blank_rows(&mut self, from: usize, to: usize)
        requires
            old(self).wf(),
            to <= old(self).cells@.len(),
        ensures
            final(self).wf(),
            final(self).model() == old(self).model().with_cells(final(self).model().cells),
            blanked(old(self).model().cells, final(self).model().cells, |r: int, c: int| from <= r < to),
    {
        let ghost m0 = self.model();
        proof {
            lemma_blanked_refl(m0.cells);
            lemma_blanked_equiv(m0.cells, m0.cells, |r: int, c: int| false, |r: int, c: int| from <= r < from);
        }
        let mut row = from;
        while row < to
            invariant
                self.wf(),
                self.model() == m0.with_cells(self.model().cells),
                from <= row,
                row <= to || row == from,
                to <= self.cells@.len(),
                blanked(m0.cells, self.model().cells, |r: int, c: int| from <= r < row),
                m0.ok(),
            decreases to - row,
        {
            let ghost before = self.model().cells;
            let cols = self.cols;
            self.blank_span(row, 0, cols);
            proof {
                let s1 = |r: int, c: int| from <= r < row;
                let s2 = |r: int, c: int| r == row && 0 <= c < cols;
                lemma_blanked_trans(m0.cells, before, self.model().cells, s1, s2);
                lemma_blanked_equiv(
                    m0.cells,
                    self.model().cells,
                    |r: int, c: int| s1(r, c) || s2(r, c),
                    |r: int, c: int| from <= r < row + 1,
                );
            }
            row = row + 1;
        }
        proof {
            lemma_blanked_equiv(
                m0.cells,
                self.model().cells,
                |r: int, c: int| from <= r < row,
                |r: int, c: int| from <= r < to,
            );
        }
    }

    /// Erase in display (`CSI n J`).
    fn erase_in_display(&mut self, mode: u16)
        requires
            old(self).wf(),
            erase_display_defined(old(self).model(), mode),
        ensures
            final(self).wf(),
            final(self).model() == erase_display_spec(old(self).model(), mode),
    {
        let ghost m0 = self.model();
        let cr = self.cursor_row;
        let cc = self.cursor_col;
        let cols = self.cols;
        if mode == 0 {
            proof {
                lemma_blanked_refl(m0.cells);
            }
            if cc < cols {
                self.blank_span(cr, cc, cols);
            } else {
                proof {
                    lemma_blanked_equiv(m0.cells, m0.cells, |r: int, c: int| false,
                        |r: int, c: int| r == cr && cc <= c < cols);
                }
            }
            let ghost mid = self.model().cells;
            let rows = self.rows;
            let len = self.cells.len();
            let end = if rows < len { rows } else { len };
            self.blank_rows(cr + 1, end);
            proof {
                let s1 = |r: int, c: int| r == cr && cc <= c < cols;
                let s2 = |r: int, c: int| cr + 1 <= r < end;
                lemma_blanked_trans(m0.cells, mid, self.model().cells, s1, s2);
                lemma_blanked_equiv(
                    m0.cells,
                    self.model().cells,
                    |r: int, c: int| s1(r, c) || s2(r, c),
                    |r: int, c: int| (r == cr && c >= cc) || r > cr,
                );
                lemma_blanked(m0, self.model().cells, |r: int, c: int| (r == cr && c >= cc) || r > cr);
            }
        } else if mode == 1 {
            self.blank_rows(0, cr);
            let ghost mid = self.model().cells;
            let upto = if cc < cols - 1 { cc } else { cols - 1 };
            self.blank_span(cr, 0, upto + 1);
            proof {
                let s1 = |r: int, c: int| 0 <= r < cr;
                let s2 = |r: int, c: int| r == cr && 0 <= c < upto + 1;
                lemma_blanked_trans(m0.cells, mid, self.model().cells, s1, s2);
                lemma_blanked_equiv(
                    m0.cells,
                    self.model().cells,
                    |r: int, c: int| s1(r, c) || s2(r, c),
                    |r: int, c: int| r < cr || (r == cr && c <= cc),
                );
                lemma_blanked(m0, self.model().cells, |r: int, c: int| r < cr || (r == cr && c <= cc));
            }
        } else if mode == 2 || mode == 3 {
            let len = self.cells.len();
            self.blank_rows(0, len);
            proof {
                lemma_blanked_equiv(
                    m0.cells,
                    self.model().cells,
                    |r: int, c: int| 0 <= r < len,
                    |r: int, c: int| true,
                );
                lemma_blanked(m0, self.model().cells, |r: int, c: int| true);
            }
        }
        proof {
            assert(self.model() =~~= erase_display_spec(m0, mode));
        }
    }

    /// Erase in line (`CSI n K`).
    fn erase_in_line(&mut self, mode: u16)
        requires
            old(self).wf(),
            erase_line_defined(old(self).model(), mode),
        ensures
            final(self).wf(),
            final(self).model() == erase_line_spec(old(self).model(), mode),
    {
        let ghost m0 = self.model();
        let row = self.cursor_row;
        let cc = self.cursor_col;
        let cols = self.cols;
        if mode == 0 {
            if cc < cols {
                self.blank_span(row, cc, cols);
                proof {
                    lemma_blanked_equiv(
                        m0.cells,
                        self.model().cells,
                        |r: int, c: int| r == row && cc <= c < cols,
                        |r: int, c: int| r == row && c >= cc,
                    );
                    lemma_blanked(m0, self.model().cells, |r: int, c: int| r == row && c >= cc);
                }
            } else {
                proof {
                    lemma_blanked_refl(m0.cells);
                    lemma_blanked_equiv(
                        m0.cells,
                        m0.cells,
                        |r: int, c: int| false,
                        |r: int, c: int| r == row && c >= cc,
                    );
                    lemma_blanked(m0, m0.cells, |r: int, c: int| r == row && c >= cc);
                }
            }
        } else if mode == 1 {
            let upto = if cc < cols - 1 { cc } else { cols - 1 };
            self.blank_span(row, 0, upto + 1);
            proof {
                lemma_blanked_equiv(
                    m0.cells,
                    self.model().cells,
                    |r: int, c: int| r == row && 0 <= c < upto + 1,
                    |r: int, c: int| r == row && c <= cc,
                );
                lemma_blanked(m0, self.model().cells, |r: int, c: int| r == row && c <= cc);
            }
        } else if mode == 2 {
            if cols > 0 {
                self.blank_span(row, 0, cols);
                proof {
                    lemma_blanked_equiv(
                        m0.cells,
                        self.model().cells,
                        |r: int, c: int| r == row && 0 <= c < cols,
                        |r: int, c: int| r == row,
                    );
                    lemma_blanked(m0, self.model().cells, |r: int, c: int| r == row);
                }
            } else {
                proof {
                    lemma_blanked_refl(m0.cells);
                    lemma_blanked_equiv(m0.cells, m0.cells, |r: int, c: int| false, |r: int, c: int| r == row);
                    lemma_blanked(m0, m0.cells, |r: int, c: int| r == row);
                }
            }
        }
        proof {
            assert(self.model() =~~= erase_line_spec(m0, mode));
        }
    }

    fn insert_line(&mut self)
        requires
            old(self).wf(),
        ensures
            final(self).wf(),
            final(self).model() == insert_line_step(old(self).model()),
    {
        let ghost m0 = self.model();
        if self.cursor_row <= self.scroll_bottom && self.scroll_bottom < self.rows {
            if self.scroll_bottom < self.cells.len() {
                self.cells.remove(self.scroll_bottom);
            }
            self.cells.insert(self.cursor_row, vec![TermCell::default(); self.cols]);
            assert(self.model().cells =~~= insert_line_step(m0).cells);
        }
    }

    fn delete_line(&mut self)
        requires
            old(self).wf(),
        ensures
            final(self).wf(),
            final(self).model() == delete_line_step(old(self).model()),
    {
        let ghost m0 = self.model();
        if self.cursor_row < self.cells.len() {
            self.cells.remove(self.cursor_row);
            let len = self.cells.len();
            let insert_pos = if self.scroll_bottom < len { self.scroll_bottom } else { len };
            self.cells.insert(insert_pos, vec![TermCell::default(); self.cols]);
            assert(self.model().cells =~~= delete_line_step(m0).cells);
        }
    }

    fn delete_char(&mut self)
        requires
            old(self).wf(),
            old(self).cursor_row < old(self).cells@.len(),
        ensures
            final(self).wf(),
            final(self).model() == delete_char_step(old(self).model()),
    {
        let ghost m0 = self.model();
        let row = self.cursor_row;
        assert(m0.cells[row as int] == self.cells@[row as int]@);
        if self.cursor_col < self.cells[row].len() {
            self.cells[row].remove(self.cursor_col);
            self.cells[row].push(TermCell::default());
            assert(self.model().cells =~~= delete_char_step(m0).cells);
        }
    }

    fn insert_char(&mut self)
        requires
            old(self).wf(),
            old(self).cursor_row < old(self).cells@.len(),
        ensures
            final(self).wf(),
            final(self).model() == insert_char_step(old(self).model()),
    {
        let ghost m0 = self.model();
        let row = self.cursor_row;
        assert(m0.cells[row as int] == self.cells@[row as int]@);
        self.cells[row].insert(self.cursor_col, TermCell::default());
        self.cells[row].truncate(self.cols);
        assert(self.model().cells =~~= insert_char_step(m0).cells);
    }

    /// Whether the CSI sequence can be applied to this grid (see
    /// [`csi_defined`]): its parameters have values, its 256-colour indices
    /// are in range, and the rows and cells it edits exist.
    pub fn csi_is_defined(&self, params: &Vec<Vec<u16>>, intermediates: &[u8], action: char) -> (b: bool)
        requires
            self.wf(),
        ensures
            b == csi_defined(self.model(), params@.map_values(|p: Vec<u16>| p@), intermediates@, action),
    {
        if contains_byte(intermediates, 0x3f) {
            return true;
        }
        let ghost ps = params@.map_values(|p: Vec<u16>| p@);
        let reads_first = action == 'A' || action == 'B' || action == 'C' || action == 'D' || action == 'J'
            || action == 'K' || action == 'L' || action == 'M' || action == 'P' || action == '@'
            || action == 'n' || action == 'd' || action == 'G' || action == 'H' || action == 'f'
            || action == 'r';
        if reads_first && !param_readable(params, 0) {
            return false;
        }
        if (action == 'H' || action == 'f' || action == 'r') && !param_readable(params, 1) {
            return false;
        }
        if action == 'J' || action == 'K' {
            let mode = param_or_exec(params, 0, 0);
            let row_there = self.cursor_row < self.cells.len();
            let ok = if mode == 0 {
                self.cursor_col >= self.cols || row_there
            } else if mode == 1 {
                row_there && self.cols > 0
            } else if mode == 2 && action == 'K' {
                self.cols == 0 || row_there
            } else {
                true
            };
            return ok;
        }
        if action == 'm' {
            return sgr_params_ok(params);
        }
        if action == 'P' || action == '@' {
            return self.cursor_row < self.cells.len();
        }
        true
    }

    /// Applies a CSI sequence (`ESC [ params intermediates action`) to the grid.
    /// Returns the bytes to send back to the program, if the sequence asks for
    /// a reply (the cursor position report).
    pub fn csi_dispatch(
        &mut self,
        params: &Vec<Vec<u16>>,
        intermediates: &[u8],
        ignore: bool,
        action: char,
    ) -> (reply: Option<Vec<u8>>)
        requires
            old(self).wf(),
            csi_defined(
                old(self).model(),
                params@.map_values(|p: Vec<u16>| p@),
                intermediates@,
                action,
            ),
        ensures
            final(self).wf(),
            final(self).model() == csi_spec(
                old(self).model(),
                params@.map_values(|p: Vec<u16>| p@),
                intermediates@,
                action,
            ),
            match reply {
                Some(bytes) => csi_reply(
                    old(self).model(),
                    params@.map_values(|p: Vec<u16>| p@),
                    intermediates@,
                    action,
                ) == Some(bytes@),
                None => csi_reply(
                    old(self).model(),
                    params@.map_values(|p: Vec<u16>| p@),
                    intermediates@,
                    action,
                ) is None,
            },
    {
        let ghost m0 = self.model();
        let ghost ps = params@.map_values(|p: Vec<u16>| p@);
        if contains_byte(intermediates, 0x3f) {
            return None;
        }
        if action == 'A' {
            let n = param_or_exec(params, 0, 1) as usize;
            self.cursor_row = self.cursor_row.saturating_sub(n);
        } else if action == 'B' {
            let n = param_or_exec(params, 0, 1) as usize;
            let target = self.cursor_row + n;
            let last_row = self.rows.saturating_sub(1);
            self.cursor_row = if target < last_row { target } else { last_row };
        } else if action == 'C' {
            let n = param_or_exec(params, 0, 1) as usize;
            let target = self.cursor_col + n;
            let last_col = self.cols.saturating_sub(1);
            self.cursor_col = if target < last_col { target } else { last_col };
        } else if action == 'D' {
            let n = param_or_exec(params, 0, 1) as usize;
            self.cursor_col = self.cursor_col.saturating_sub(n);
        } else if action == 'H' || action == 'f' {
            let row = (param_or_exec(params, 0, 1) as usize).saturating_sub(1);
            let col = (param_or_exec(params, 1, 1) as usize).saturating_sub(1);
            let last_row = self.rows.saturating_sub(1);
            let last_col = self.cols.saturating_sub(1);
            self.cursor_row = if row < last_row { row } else { last_row };
            self.cursor_col = if col < last_col { col } else { last_col };
        } else if action == 'J' {
            let mode = param_or_exec(params, 0, 0);
            self.erase_in_display(mode);
        } else if action == 'K' {
            let mode = param_or_exec(params, 0, 0);
            self.erase_in_line(mode);
        } else if action == 'm' {
            if params.len() == 0 {
                self.pen = default_pen_exec();
            } else {
                self.pen = apply_sgr(params, self.pen);
            }
        } else if action == 'r' {
            let top = (param_or_exec(params, 0, 1) as usize).saturating_sub(1);
            let rows_default: u16 = (self.rows % 0x10000) as u16;
            let bottom = (param_or_exec(params, 1, rows_default) as usize).saturating_sub(1);
            let last_row = self.rows.saturating_sub(1);
            self.scroll_top = if top < last_row { top } else { last_row };
            self.scroll_bottom = if bottom < last_row { bottom } else { last_row };
        } else if action == 'L' {
            let n = param_or_exec(params, 0, 1) as usize;
            let mut i: usize = 0;
            while i < n
                invariant
                    i <= n,
                    self.wf(),
                    self.model() == iterate(|g: GridModel| insert_line_step(g), m0, i as nat),
                decreases n - i,
            {
                self.insert_line();
                i = i + 1;
            }
        } else if action == 'M' {
            let n = param_or_exec(params, 0, 1) as usize;
            let mut i: usize = 0;
            while i < n
                invariant
                    i <= n,
                    self.wf(),
                    self.model() == iterate(|g: GridModel| delete_line_step(g), m0, i as nat),
                decreases n - i,
            {
                self.delete_line();
                i = i + 1;
            }
        } else if action == 'P' {
            let n = param_or_exec(params, 0, 1) as usize;
            let mut i: usize = 0;
            while i < n
                invariant
                    i <= n,
                    self.wf(),
                    self.cursor_row == m0.cursor_row,
                    self.cursor_row < self.cells@.len(),
                    self.model() == iterate(|g: GridModel| delete_char_step(g), m0, i as nat),
                decreases n - i,
            {
                self.delete_char();
                i = i + 1;
            }
        } else if action == '@' {
            let n = param_or_exec(params, 0, 1) as usize;
            let mut i: usize = 0;
            while i < n
                invariant
                    i <= n,
                    self.wf(),
                    self.cursor_row == m0.cursor_row,
                    self.cursor_row < self.cells@.len(),
                    self.model() == iterate(|g: GridModel| insert_char_step(g), m0, i as nat),
                decreases n - i,
            {
                self.insert_char();
                i = i + 1;
            }
        } else if action == 'n' {
            let mode = param_or_exec(params, 0, 0);
            if mode == 6 {
                let mut out: Vec<u8> = Vec::new();
                out.push(0x1b);
                out.push(0x5b);
                push_decimal(&mut out, self.cursor_row + 1);
                out.push(0x3b);
                push_decimal(&mut out, self.cursor_col + 1);
                out.push(0x52);
                assert(out@ =~= cpr_response(m0));
                return Some(out);
            }
        } else if action == 'd' {
            let row = (param_or_exec(params, 0, 1) as usize).saturating_sub(1);
            let last_row = self.rows.saturating_sub(1);
            self.cursor_row = if row < last_row { row } else { last_row };
        } else if action == 'G' {
            let col = (param_or_exec(params, 0, 1) as usize).saturating_sub(1);
            let last_col = self.cols.saturating_sub(1);
            self.cursor_col = if col < last_col { col } else { last_col };
        }
        None
    }

    /// Applies an ESC sequence; only reverse index (`ESC M`) has an effect.
    pub fn esc_dispatch(&mut self, intermediates: &[u8], ignore: bool, byte: u8)
        requires
            old(self).wf(),
        ensures
            final(self).wf(),
            final(self).model() == esc_spec(old(self).model(), byte),
    {
        let ghost m0 = self.model();
        if byte == 0x4d {
            if self.cursor_row == self.scroll_top {
                if self.scroll_bottom < self.cells.len() {
                    self.cells.remove(self.scroll_bottom);
                }
                self.cells.insert(self.scroll_top, vec![TermCell::default(); self.cols]);
                assert(self.model().cells =~~= esc_spec(m0, byte).cells);
            } else {
                self.cursor_row = self.cursor_row.saturating_sub(1);
            }
        }
    }
}

} // verus!
