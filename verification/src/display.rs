//! The display plane: a monochrome bit grid in one of two fixed geometries,
//! with clear and XOR-draw operations, collision detection, and a dirty flag
//! that records whether a flush to the presentation backend is owed.
//!
//! Sprites are drawn with the historical clipping rule: the start position
//! wraps by modulo, but once drawing begins rows are clipped at the bottom
//! edge and columns at the right edge — never wrapped.

use vstd::prelude::*;

use crate::bits::{bit_contents, bits_clear, bits_new, bits_read, bits_write, BitBuf};

verus! {

/// The two supported plane geometries.
#[derive(Clone, Copy, PartialEq, Eq, Structural, Debug)]
pub enum Geometry {
    /// 64 x 32 cells.
    Chip8,
    /// 128 x 64 cells.
    SuperChip,
}

pub open spec fn spec_width(kind: Geometry) -> int {
    match kind {
        Geometry::Chip8 => 64,
        Geometry::SuperChip => 128,
    }
}

pub open spec fn spec_height(kind: Geometry) -> int {
    match kind {
        Geometry::Chip8 => 32,
        Geometry::SuperChip => 64,
    }
}

/// The mathematical state of a display plane: its geometry, its cells in
/// row-major order (true = lit), and whether a flush is owed.
#[verifier::ext_equal]
pub struct ScreenView {
    pub width: int,
    pub height: int,
    pub cells: Seq<bool>,
    pub dirty: bool,
}

impl ScreenView {
    /// A well-formed plane has one of the two supported geometries and one
    /// cell per grid position.
    pub open spec fn wf(self) -> bool {
        &&& ((self.width == 64 && self.height == 32) || (self.width == 128 && self.height
            == 64))
        &&& self.cells.len() == self.width * self.height
    }
}

/// The display plane. The geometry is fixed at construction; the cell buffer
/// is cleared in place, never reallocated.
pub struct EmuDisplay {
    kind: Geometry,
    cells: BitBuf,
    dirty: bool,
}

impl View for EmuDisplay {
    type V = ScreenView;

    closed spec fn view(&self) -> ScreenView {
        ScreenView {
            width: spec_width(self.kind),
            height: spec_height(self.kind),
            cells: bit_contents(self.cells),
            dirty: self.dirty,
        }
    }
}

/// Bit `j` (0 = leftmost) of one sprite row byte.
pub open spec fn sprite_bit(b: u8, j: int) -> bool {
    (b >> ((7 - j) as u32)) & 1 == 1
}

/// How many columns of an 8-bit sprite row fit at start column `x0`:
/// 8 where the row fits, else clipped at the right edge.
pub open spec fn cols_drawn(w: int, x0: int) -> int {
    if x0 + 8 <= w {
        8
    } else {
        w - x0
    }
}

/// How many sprite rows are drawn from start row `y0`: all of them where
/// they fit, else clipped at the bottom edge.
pub open spec fn rows_drawn(len: int, h: int, y0: int) -> int {
    if len <= h - y0 {
        len
    } else {
        h - y0
    }
}

/// Whether sprite position (row `r`, column `c`) lies in the prefix already
/// drawn: all rows before `i`, plus columns before `j` of row `i`, with
/// every row clipped to `cols` columns.
pub open spec fn in_prefix(r: int, c: int, i: int, j: int, cols: int) -> bool {
    &&& 0 <= c < cols
    &&& ((0 <= r < i) || (r == i && c < j))
}

/// The cell grid after XOR-drawing the prefix of `sprite` given by
/// (`i`, `j`): cell `p` is toggled where its (row, column) relative to the
/// start position lies in that prefix and the sprite bit there is set.
pub open spec fn draw_upto(
    cells: Seq<bool>,
    w: int,
    x0: int,
    y0: int,
    sprite: Seq<u8>,
    i: int,
    j: int,
    cols: int,
) -> Seq<bool> {
    Seq::new(
        cells.len(),
        |p: int|
            if in_prefix(p / w - y0, p % w - x0, i, j, cols) {
                cells[p] != sprite_bit(sprite[p / w - y0], p % w - x0)
            } else {
                cells[p]
            },
    )
}

/// Whether drawing the (`i`, `j`) prefix of `sprite` erases a lit cell:
/// some drawn sprite bit is set where the plane cell is already lit.
pub open spec fn hit_upto(
    cells: Seq<bool>,
    w: int,
    x0: int,
    y0: int,
    sprite: Seq<u8>,
    i: int,
    j: int,
    cols: int,
) -> bool {
    exists|r: int, c: int|
        (#[trigger] in_prefix(r, c, i, j, cols)) && sprite_bit(sprite[r], c) && cells[(y0 + r) * w
            + x0 + c]
}

/// Whether the (`i`, `j`) prefix of `sprite` holds any set bit among its
/// drawn columns — exactly when drawing it changes some cell.
pub open spec fn lit_upto(sprite: Seq<u8>, i: int, j: int, cols: int) -> bool {
    exists|r: int, c: int| (#[trigger] in_prefix(r, c, i, j, cols)) && sprite_bit(sprite[r], c)
}

/// The plane after drawing `sprite` at start coordinates (`cx`, `cy`):
/// the start wraps by modulo, rows clip at the bottom, columns at the right,
/// every drawn set bit toggles its cell, and the plane becomes dirty
/// exactly when some cell actually changed.
pub open spec fn spec_draw(s: ScreenView, sprite: Seq<u8>, cx: u8, cy: u8) -> ScreenView {
    let x0 = cx as int % s.width;
    let y0 = cy as int % s.height;
    let cols = cols_drawn(s.width, x0);
    let rows = rows_drawn(sprite.len() as int, s.height, y0);
    ScreenView {
        cells: draw_upto(s.cells, s.width, x0, y0, sprite, rows, 0, cols),
        dirty: s.dirty || lit_upto(sprite, rows, 0, cols),
        ..s
    }
}

/// Whether drawing `sprite` at (`cx`, `cy`) erases some lit cell — the
/// collision the draw call reports.
pub open spec fn spec_draw_hit(s: ScreenView, sprite: Seq<u8>, cx: u8, cy: u8) -> bool {
    let x0 = cx as int % s.width;
    let y0 = cy as int % s.height;
    let cols = cols_drawn(s.width, x0);
    let rows = rows_drawn(sprite.len() as int, s.height, y0);
    hit_upto(s.cells, s.width, x0, y0, sprite, rows, 0, cols)
}

/// The plane after a clear: every cell unlit, a flush owed.
pub open spec fn spec_cleared(s: ScreenView) -> ScreenView {
    ScreenView { cells: Seq::new(s.cells.len(), |i: int| false), dirty: true, ..s }
}

proof fn lemma_screen_size(s: ScreenView)
    requires
        s.wf(),
    ensures
        s.cells.len() == s.width * s.height,
        s.cells.len() <= 8192,
        8 <= s.width <= 128,
        1 <= s.height <= 64,
{
    assert(s.cells.len() <= 8192) by (nonlinear_arith)
        requires
            ((s.width == 64 && s.height == 32) || (s.width == 128 && s.height == 64)),
            s.cells.len() == s.width * s.height,
    ;
}

proof fn lemma_pos_decomp(w: int, p: int)
    requires
        0 < w,
        0 <= p,
    ensures
        p == (p / w) * w + (p % w),
        0 <= p % w < w,
        0 <= p / w,
{
    vstd::arithmetic::div_mod::lemma_fundamental_div_mod(p, w);
    vstd::arithmetic::div_mod::lemma_mod_bound(p, w);
    vstd::arithmetic::div_mod::lemma_div_pos_is_pos(p, w);
    vstd::arithmetic::mul::lemma_mul_is_commutative(p / w, w);
}

proof fn lemma_cell_pos(w: int, r: int, c: int)
    requires
        0 < w,
        0 <= r,
        0 <= c < w,
    ensures
        (r * w + c) / w == r,
        (r * w + c) % w == c,
{
    vstd::arithmetic::div_mod::lemma_fundamental_div_mod_converse(r * w + c, w, r, c);
}

proof fn lemma_draw_start(cells: Seq<bool>, w: int, x0: int, y0: int, sprite: Seq<u8>, cols: int)
    ensures
        draw_upto(cells, w, x0, y0, sprite, 0, 0, cols) =~= cells,
        !hit_upto(cells, w, x0, y0, sprite, 0, 0, cols),
        !lit_upto(sprite, 0, 0, cols),
{
}

proof fn lemma_row_advance(
    cells: Seq<bool>,
    w: int,
    x0: int,
    y0: int,
    sprite: Seq<u8>,
    i: int,
    cols: int,
)
    requires
        0 <= i,
    ensures
        draw_upto(cells, w, x0, y0, sprite, i, cols, cols) =~= draw_upto(
            cells,
            w,
            x0,
            y0,
            sprite,
            i + 1,
            0,
            cols,
        ),
        hit_upto(cells, w, x0, y0, sprite, i, cols, cols) == hit_upto(
            cells,
            w,
            x0,
            y0,
            sprite,
            i + 1,
            0,
            cols,
        ),
        lit_upto(sprite, i, cols, cols) == lit_upto(sprite, i + 1, 0, cols),
{
    assert forall|r: int, c: int|
        in_prefix(r, c, i, cols, cols) == in_prefix(r, c, i + 1, 0, cols) by {}
    if hit_upto(cells, w, x0, y0, sprite, i, cols, cols) {
        let (r, c) = choose|r: int, c: int|
            (#[trigger] in_prefix(r, c, i, cols, cols)) && sprite_bit(sprite[r], c) && cells[(y0
                + r) * w + x0 + c];
        assert(in_prefix(r, c, i + 1, 0, cols));
    }
    if hit_upto(cells, w, x0, y0, sprite, i + 1, 0, cols) {
        let (r, c) = choose|r: int, c: int|
            (#[trigger] in_prefix(r, c, i + 1, 0, cols)) && sprite_bit(sprite[r], c) && cells[(y0
                + r) * w + x0 + c];
        assert(in_prefix(r, c, i, cols, cols));
    }
    if lit_upto(sprite, i, cols, cols) {
        let (r, c) = choose|r: int, c: int|
            (#[trigger] in_prefix(r, c, i, cols, cols)) && sprite_bit(sprite[r], c);
        assert(in_prefix(r, c, i + 1, 0, cols));
    }
    if lit_upto(sprite, i + 1, 0, cols) {
        let (r, c) = choose|r: int, c: int|
            (#[trigger] in_prefix(r, c, i + 1, 0, cols)) && sprite_bit(sprite[r], c);
        assert(in_prefix(r, c, i, cols, cols));
    }
}

proof fn lemma_cell_advance(
    cells: Seq<bool>,
    w: int,
    x0: int,
    y0: int,
    sprite: Seq<u8>,
    i: int,
    j: int,
    cols: int,
)
    requires
        0 < w,
        0 <= x0,
        0 <= y0,
        0 <= i < sprite.len(),
        0 <= j < cols,
        x0 + cols <= w,
        (y0 + i) * w + x0 + j < cells.len(),
    ensures
        draw_upto(cells, w, x0, y0, sprite, i, j, cols)[(y0 + i) * w + x0 + j] == cells[(y0 + i) * w
            + x0 + j],
        sprite_bit(sprite[i], j) ==> draw_upto(cells, w, x0, y0, sprite, i, j + 1, cols)
            =~= draw_upto(cells, w, x0, y0, sprite, i, j, cols).update(
            (y0 + i) * w + x0 + j,
            !cells[(y0 + i) * w + x0 + j],
        ),
        !sprite_bit(sprite[i], j) ==> draw_upto(cells, w, x0, y0, sprite, i, j + 1, cols)
            =~= draw_upto(cells, w, x0, y0, sprite, i, j, cols),
        hit_upto(cells, w, x0, y0, sprite, i, j + 1, cols) == (hit_upto(
            cells,
            w,
            x0,
            y0,
            sprite,
            i,
            j,
            cols,
        ) || (sprite_bit(sprite[i], j) && cells[(y0 + i) * w + x0 + j])),
        lit_upto(sprite, i, j + 1, cols) == (lit_upto(sprite, i, j, cols) || sprite_bit(
            sprite[i],
            j,
        )),
{
    let idx = (y0 + i) * w + x0 + j;
    lemma_cell_pos(w, y0 + i, x0 + j);
    assert(idx / w - y0 == i && idx % w - x0 == j);
    assert(!in_prefix(idx / w - y0, idx % w - x0, i, j, cols));
    assert(in_prefix(idx / w - y0, idx % w - x0, i, j + 1, cols));
    assert forall|p: int| 0 <= p < cells.len() && p != idx implies #[trigger] draw_upto(
        cells,
        w,
        x0,
        y0,
        sprite,
        i,
        j + 1,
        cols,
    )[p] == draw_upto(cells, w, x0, y0, sprite, i, j, cols)[p] by {
        lemma_pos_decomp(w, p);
        if in_prefix(p / w - y0, p % w - x0, i, j + 1, cols) && !in_prefix(
            p / w - y0,
            p % w - x0,
            i,
            j,
            cols,
        ) {
            assert(p / w - y0 == i && p % w - x0 == j);
            assert(p == (y0 + i) * w + (x0 + j));
        }
    }
    if sprite_bit(sprite[i], j) {
        assert(draw_upto(cells, w, x0, y0, sprite, i, j + 1, cols) =~= draw_upto(
            cells,
            w,
            x0,
            y0,
            sprite,
            i,
            j,
            cols,
        ).update(idx, !cells[idx]));
    } else {
        assert(draw_upto(cells, w, x0, y0, sprite, i, j + 1, cols) =~= draw_upto(
            cells,
            w,
            x0,
            y0,
            sprite,
            i,
            j,
            cols,
        ));
    }
    // The collision and change trackers extend by exactly the cell at (i, j).
    if hit_upto(cells, w, x0, y0, sprite, i, j, cols) {
        let (r, c) = choose|r: int, c: int|
            (#[trigger] in_prefix(r, c, i, j, cols)) && sprite_bit(sprite[r], c) && cells[(y0 + r)
                * w + x0 + c];
        assert(in_prefix(r, c, i, j + 1, cols));
    }
    if sprite_bit(sprite[i], j) && cells[idx] {
        assert(in_prefix(i, j, i, j + 1, cols));
        assert(hit_upto(cells, w, x0, y0, sprite, i, j + 1, cols));
    }
    if hit_upto(cells, w, x0, y0, sprite, i, j + 1, cols) && !(sprite_bit(sprite[i], j)
        && cells[idx]) {
        let (r, c) = choose|r: int, c: int|
            (#[trigger] in_prefix(r, c, i, j + 1, cols)) && sprite_bit(sprite[r], c) && cells[(y0
                + r) * w + x0 + c];
        assert(in_prefix(r, c, i, j, cols));
    }
    if lit_upto(sprite, i, j, cols) {
        let (r, c) = choose|r: int, c: int|
            (#[trigger] in_prefix(r, c, i, j, cols)) && sprite_bit(sprite[r], c);
        assert(in_prefix(r, c, i, j + 1, cols));
    }
    if sprite_bit(sprite[i], j) {
        assert(in_prefix(i, j, i, j + 1, cols));
        assert(lit_upto(sprite, i, j + 1, cols));
    }
    if lit_upto(sprite, i, j + 1, cols) && !sprite_bit(sprite[i], j) {
        let (r, c) = choose|r: int, c: int|
            (#[trigger] in_prefix(r, c, i, j + 1, cols)) && sprite_bit(sprite[r], c);
        assert(in_prefix(r, c, i, j, cols));
    }
}

proof fn lemma_zero_bits()
    by (bit_vector)
    ensures
        forall|sh: u32| #[trigger] ((0u8 >> sh) & 1) == 0,
{
}

proof fn lemma_ff_bits()
    by (bit_vector)
    ensures
        forall|sh: u32| sh < 8 ==> #[trigger] ((0xFFu8 >> sh) & 1) == 1,
{
}

/// Law: XOR-drawing is an involution on the pixel grid — drawing the same
/// sprite twice at the same position restores every cell to its original
/// state.
pub proof fn lemma_draw_twice_restores(s: ScreenView, sprite: Seq<u8>, cx: u8, cy: u8)
    requires
        s.wf(),
    ensures
        spec_draw(spec_draw(s, sprite, cx, cy), sprite, cx, cy).cells == s.cells,
{
    let d1 = spec_draw(s, sprite, cx, cy);
    let d2 = spec_draw(d1, sprite, cx, cy);
    assert forall|p: int| 0 <= p < s.cells.len() implies #[trigger] d2.cells[p]
        == s.cells[p] by {}
    assert(d2.cells =~= s.cells);
}

/// Law: drawing an all-zero sprite changes no cell, owes no flush it did not
/// already owe, and reports no collision.
pub proof fn lemma_draw_zero_sprite(s: ScreenView, sprite: Seq<u8>, cx: u8, cy: u8)
    requires
        s.wf(),
        forall|i: int| 0 <= i < sprite.len() ==> sprite[i] == 0u8,
    ensures
        spec_draw(s, sprite, cx, cy).cells == s.cells,
        spec_draw(s, sprite, cx, cy).dirty == s.dirty,
        !spec_draw_hit(s, sprite, cx, cy),
{
    lemma_zero_bits();
    let d = spec_draw(s, sprite, cx, cy);
    assert forall|p: int| 0 <= p < s.cells.len() implies #[trigger] d.cells[p] == s.cells[p] by {}
    assert(d.cells =~= s.cells);
}

/// Law: a sprite of full 8-bit rows drawn with start column `width - 3` is
/// clipped to exactly the rightmost 3 columns — no cell left of the start
/// column (column 0 included) or outside the drawn rows changes, and the 3
/// clipped columns of every drawn row toggle.
pub proof fn lemma_draw_right_edge_clips(s: ScreenView, sprite: Seq<u8>, cx: u8, cy: u8)
    requires
        s.wf(),
        cx as int == s.width - 3,
        forall|i: int| 0 <= i < sprite.len() ==> sprite[i] == 0xFFu8,
    ensures
        cols_drawn(s.width, cx as int % s.width) == 3,
        forall|p: int|
            0 <= p < s.cells.len() && p % s.width < s.width - 3 ==> #[trigger] spec_draw(
                s,
                sprite,
                cx,
                cy,
            ).cells[p] == s.cells[p],
        forall|p: int|
            0 <= p < s.cells.len() && !((cy as int % s.height) <= p / s.width < (cy as int
                % s.height) + rows_drawn(sprite.len() as int, s.height, cy as int % s.height))
                ==> #[trigger] spec_draw(s, sprite, cx, cy).cells[p] == s.cells[p],
        forall|p: int|
            0 <= p < s.cells.len() && p % s.width >= s.width - 3 && (cy as int % s.height) <= p
                / s.width < (cy as int % s.height) + rows_drawn(
                sprite.len() as int,
                s.height,
                cy as int % s.height,
            ) ==> #[trigger] spec_draw(s, sprite, cx, cy).cells[p] == !s.cells[p],
{
    lemma_ff_bits();
    lemma_screen_size(s);
    let w = s.width;
    let h = s.height;
    let x0 = cx as int % w;
    let y0 = cy as int % h;
    vstd::arithmetic::div_mod::lemma_small_mod((w - 3) as nat, w as nat);
    assert(x0 == w - 3);
    let rows = rows_drawn(sprite.len() as int, h, y0);
    let d = spec_draw(s, sprite, cx, cy);
    assert forall|p: int| 0 <= p < s.cells.len() && p % w < w - 3 implies #[trigger] d.cells[p]
        == s.cells[p] by {
        lemma_pos_decomp(w, p);
    }
    assert forall|p: int| 0 <= p < s.cells.len() && !(y0 <= p / w < y0 + rows)
        implies #[trigger] d.cells[p] == s.cells[p] by {
        lemma_pos_decomp(w, p);
    }
    assert forall|p: int| 0 <= p < s.cells.len() && p % w >= w - 3 && y0 <= p / w < y0 + rows
        implies #[trigger] d.cells[p] == !s.cells[p] by {
        lemma_pos_decomp(w, p);
        let r = p / w - y0;
        let c = p % w - x0;
        assert(0 <= c < 3);
        assert(0 <= r < rows);
        assert(sprite[r] == 0xFFu8);
        assert(((7 - c) as u32) < 8);
        assert(sprite_bit(sprite[r], c));
    }
}

impl EmuDisplay {
    /// A plane of the chosen geometry with every cell unlit and no flush
    /// owed.
    pub fn new(kind: Geometry) -> (d: EmuDisplay)
        ensures
            d@.wf(),
            d@.width == spec_width(kind),
            d@.height == spec_height(kind),
            d@.cells == Seq::new((spec_width(kind) * spec_height(kind)) as nat, |i: int| false),
            !d@.dirty,
    {
        match kind {
            Geometry::Chip8 => EmuDisplay {
                kind: Geometry::Chip8,
                cells: bits_new(64 * 32),
                dirty: false,
            },
            Geometry::SuperChip => EmuDisplay {
                kind: Geometry::SuperChip,
                cells: bits_new(128 * 64),
                dirty: false,
            },
        }
    }

    /// The plane's width in cells.
    pub fn width(&self) -> (w: usize)
        ensures
            w == self@.width,
    {
        match self.kind {
            Geometry::Chip8 => 64,
            Geometry::SuperChip => 128,
        }
    }

    /// The plane's height in cells.
    pub fn height(&self) -> (h: usize)
        ensures
            h == self@.height,
    {
        match self.kind {
            Geometry::Chip8 => 32,
            Geometry::SuperChip => 64,
        }
    }

    /// Sets every cell to unlit and marks the plane dirty.
    pub fn clear(&mut self)
        ensures
            final(self)@ == spec_cleared(old(self)@),
    {
        bits_clear(&mut self.cells);
        self.dirty = true;
        proof {
            assert(self@ =~= spec_cleared(old(self)@));
        }
    }

    /// Whether a flush to the presentation backend is owed.
    pub fn is_dirty(&self) -> (b: bool)
        ensures
            b == self@.dirty,
    {
        self.dirty
    }

    /// Records that the plane has been flushed.
    pub fn clear_dirty(&mut self)
        ensures
            final(self)@ == (ScreenView { dirty: false, ..old(self)@ }),
    {
        self.dirty = false;
        proof {
            assert(self@ =~= (ScreenView { dirty: false, ..old(self)@ }));
        }
    }

    /// The cell at (column, row).
    pub fn pixel(&self, col: usize, row: usize) -> (b: bool)
        requires
            self@.wf(),
            col < self@.width,
            row < self@.height,
        ensures
            b == self@.cells[row * self@.width + col],
    {
        let w = self.width();
        let h = self.height();
        proof {
            lemma_screen_size(self@);
            assert(row * w + col < h * w) by (nonlinear_arith)
                requires
                    col < w,
                    row < h,
                    0 <= row,
                    0 <= col,
            ;
            assert(h * w == self@.cells.len()) by (nonlinear_arith)
                requires
                    h == self@.height,
                    w == self@.width,
                    self@.cells.len() == self@.width * self@.height,
            ;
        }
        bits_read(&self.cells, row * w + col)
    }

    /// XOR-draws `sprite` with its top-left at `coords` (wrapped by modulo),
    /// clipping at the right and bottom edges. Returns 1 where a lit cell
    /// was erased, else 0, and marks the plane dirty where any cell changed.
    pub fn draw(&mut self, sprite: &[u8], coords: (u8, u8)) -> (carry: u8)
        requires
            old(self)@.wf(),
        ensures
            final(self)@.wf(),
            final(self)@ == spec_draw(old(self)@, sprite@, coords.0, coords.1),
            carry == (if spec_draw_hit(old(self)@, sprite@, coords.0, coords.1) {
                1u8
            } else {
                0u8
            }),
    {
        let w = self.width();
        let h = self.height();
        let x0 = (coords.0 as usize) % w;
        let y0 = (coords.1 as usize) % h;
        let cols = if x0 + 8 <= w {
            8
        } else {
            w - x0
        };
        let rows = if sprite.len() <= h - y0 {
            sprite.len()
        } else {
            h - y0
        };
        let ghost orig = old(self)@.cells;
        let mut collided = false;
        let mut changed = false;
        proof {
            lemma_draw_start(orig, w as int, x0 as int, y0 as int, sprite@, cols as int);
        }
        let mut i: usize = 0;
        while i < rows
            invariant
                old(self)@.wf(),
                w == old(self)@.width,
                h == old(self)@.height,
                x0 < w,
                y0 < h,
                cols == cols_drawn(w as int, x0 as int),
                rows == rows_drawn(sprite@.len() as int, h as int, y0 as int),
                rows <= sprite@.len(),
                y0 + rows <= h,
                0 <= i <= rows,
                orig == old(self)@.cells,
                orig.len() == w * h,
                self.kind == old(self).kind,
                self.dirty == old(self).dirty,
                bit_contents(self.cells) == draw_upto(
                    orig,
                    w as int,
                    x0 as int,
                    y0 as int,
                    sprite@,
                    i as int,
                    0,
                    cols as int,
                ),
                collided == hit_upto(
                    orig,
                    w as int,
                    x0 as int,
                    y0 as int,
                    sprite@,
                    i as int,
                    0,
                    cols as int,
                ),
                changed == lit_upto(sprite@, i as int, 0, cols as int),
            decreases rows - i,
        {
            let byte = sprite[i];
            let mut j: usize = 0;
            while j < cols
                invariant
                    old(self)@.wf(),
                    w == old(self)@.width,
                    h == old(self)@.height,
                    x0 < w,
                    y0 < h,
                    cols == cols_drawn(w as int, x0 as int),
                    rows == rows_drawn(sprite@.len() as int, h as int, y0 as int),
                    rows <= sprite@.len(),
                    y0 + rows <= h,
                    0 <= i < rows,
                    0 <= j <= cols,
                    byte == sprite@[i as int],
                    orig == old(self)@.cells,
                    orig.len() == w * h,
                    self.kind == old(self).kind,
                    self.dirty == old(self).dirty,
                    bit_contents(self.cells) == draw_upto(
                        orig,
                        w as int,
                        x0 as int,
                        y0 as int,
                        sprite@,
                        i as int,
                        j as int,
                        cols as int,
                    ),
                    collided == hit_upto(
                        orig,
                        w as int,
                        x0 as int,
                        y0 as int,
                        sprite@,
                        i as int,
                        j as int,
                        cols as int,
                    ),
                    changed == lit_upto(sprite@, i as int, j as int, cols as int),
                decreases cols - j,
            {
                let idx = (y0 + i) * w + x0 + j;
                proof {
                    assert((y0 + i) * w + x0 + j < w * h) by (nonlinear_arith)
                        requires
                            0 <= y0,
                            0 <= i,
                            0 <= x0,
                            0 <= j,
                            y0 + i < h,
                            x0 + j < w,
                            0 < w,
                            0 < h,
                    ;
                    lemma_cell_advance(
                        orig,
                        w as int,
                        x0 as int,
                        y0 as int,
                        sprite@,
                        i as int,
                        j as int,
                        cols as int,
                    );
                }
                let sbit = ((byte >> ((7 - j) as u32)) & 1) == 1;
                proof {
                    assert(sbit == sprite_bit(sprite@[i as int], j as int));
                }
                if sbit {
                    let old_bit = bits_read(&self.cells, idx);
                    bits_write(&mut self.cells, idx, !old_bit);
                    if old_bit {
                        collided = true;
                    }
                    changed = true;
                }
                j = j + 1;
            }
            proof {
                lemma_row_advance(
                    orig,
                    w as int,
                    x0 as int,
                    y0 as int,
                    sprite@,
                    i as int,
                    cols as int,
                );
            }
            i = i + 1;
        }
        self.dirty = self.dirty || changed;
        proof {
            assert(self@ =~= spec_draw(old(self)@, sprite@, coords.0, coords.1));
        }
        if collided {
            1
        } else {
            0
        }
    }

    /// The plane rendered as one 32-bit word per cell: white where lit,
    /// black where unlit, in row-major order.
    pub fn frame_buffer(&self) -> (out: Vec<u32>)
        requires
            self@.wf(),
        ensures
            out@.len() == self@.cells.len(),
            forall|i: int|
                0 <= i < out@.len() ==> out@[i] == (if self@.cells[i] {
                    0x00FF_FFFFu32
                } else {
                    0u32
                }),
    {
        let w = self.width();
        let h = self.height();
        proof {
            lemma_screen_size(self@);
            assert(w * h == self@.cells.len()) by (nonlinear_arith)
                requires
                    h == self@.height,
                    w == self@.width,
                    self@.cells.len() == self@.width * self@.height,
            ;
        }
        let n = w * h;
        let mut out: Vec<u32> = Vec::new();
        let mut i: usize = 0;
        while i < n
            invariant
                self@.wf(),
                n == self@.cells.len(),
                0 <= i <= n,
                out@.len() == i,
                forall|k: int|
                    0 <= k < i ==> out@[k] == (if self@.cells[k] {
                        0x00FF_FFFFu32
                    } else {
                        0u32
                    }),
            decreases n - i,
        {
            if bits_read(&self.cells, i) {
                out.push(0x00FF_FFFF);
            } else {
                out.push(0);
            }
            i = i + 1;
        }
        out
    }
}

} // verus!
