use vstd::prelude::*;

use crate::point::Point;

verus! {

/// Characters that stand for empty cells: `n` spaces.
pub open spec fn blanks(n: nat) -> Seq<char> {
    Seq::new(n, |i: int| ' ')
}

/// The text of `rows` with the last row first, each followed by a line break.
pub open spec fn render_rows(rows: Seq<Seq<char>>) -> Seq<char>
    decreases rows.len(),
{
    if rows.len() == 0 {
        Seq::empty()
    } else {
        rows.last() + seq!['\n'] + render_rows(rows.drop_last())
    }
}

/// Relies on `String::push`: appends one character.
#[verifier::external_body]
pub(crate) fn push_char(s: &mut String, c: char)
    ensures
        final(s)@ == old(s)@.push(c),
{
    s.push(c);
}

/// What a canvas shows, as mathematics: the stored rows, bottom row first,
/// and the offsets that place logical coordinates in them.
pub struct Grid {
    pub rows: Seq<Seq<char>>,
    pub x_offset: int,
    pub y_offset: int,
}

impl Grid {
    /// A grid with no rows.
    pub open spec fn empty() -> Grid {
        Grid { rows: Seq::empty(), x_offset: 0, y_offset: 0 }
    }

    /// The glyph at logical position `(x, y)`; cells outside the rows are blank.
    pub open spec fn glyph_at(self, x: int, y: int) -> char {
        let j = y + self.y_offset;
        let i = x + self.x_offset;
        if 0 <= j < self.rows.len() && 0 <= i < self.rows[j].len() {
            self.rows[j][i]
        } else {
            ' '
        }
    }

    /// The length of row `j`; zero outside the rows.
    pub open spec fn row_len(self, j: int) -> int {
        if 0 <= j < self.rows.len() {
            self.rows[j].len() as int
        } else {
            0
        }
    }

    /// The row offset after writing at row `y`: raised just enough for `y`.
    pub open spec fn put_y_offset(self, y: int) -> int {
        if -y > self.y_offset {
            -y
        } else {
            self.y_offset
        }
    }

    /// The column offset after writing at column `x`: raised just enough for `x`.
    pub open spec fn put_x_offset(self, x: int) -> int {
        if -x > self.x_offset {
            -x
        } else {
            self.x_offset
        }
    }

    /// The number of rows after writing at `(x, y)`: new rows below make
    /// room for a lower `y`, new rows above reach a higher one.
    pub open spec fn put_row_count(self, y: int) -> int {
        let shifted = self.rows.len() + self.put_y_offset(y) - self.y_offset;
        let t = y + self.put_y_offset(y);
        if shifted > t + 1 {
            shifted
        } else {
            t + 1
        }
    }

    /// The length of row `j` after writing at `(x, y)`: a row that holds
    /// glyphs, and the written row, gain blanks in front when the column
    /// offset grows; the written row then reaches at least the written column.
    pub open spec fn put_row_len(self, x: int, y: int, j: int) -> int {
        let ny = self.put_y_offset(y);
        let nx = self.put_x_offset(x);
        let t = y + ny;
        let ol = self.row_len(j - (ny - self.y_offset));
        let padded = if ol > 0 || j == t {
            ol + (nx - self.x_offset)
        } else {
            ol
        };
        if j == t && padded < x + nx + 1 {
            x + nx + 1
        } else {
            padded
        }
    }

    /// The grid after writing `c` at `(x, y)`: rows and offsets grown as the
    /// canvas grows them, every cell showing what it showed before except
    /// `(x, y)`, which shows `c`.
    #[verifier::opaque]
    pub open spec fn put(self, x: int, y: int, c: char) -> Grid {
        let ny = self.put_y_offset(y);
        let nx = self.put_x_offset(x);
        Grid {
            rows: Seq::new(
                self.put_row_count(y) as nat,
                |j: int|
                    Seq::new(
                        self.put_row_len(x, y, j) as nat,
                        |i: int|
                            if j == y + ny && i == x + nx {
                                c
                            } else {
                                self.glyph_at(i - nx, j - ny)
                            },
                    ),
            ),
            x_offset: nx,
            y_offset: ny,
        }
    }
}

/// A character grid that is unbounded in all four directions.
///
/// Rows are stored bottom-up; logical row `y` sits at index `y + y_offset`
/// and logical column `x` of a row at index `x + x_offset`. The offsets only
/// ever grow, so that negative coordinates find room without moving any
/// glyph away from its logical position.
pub struct Canvas {
    canvas: Vec<Vec<char>>,
    x_offset: usize,
    y_offset: usize,
}

impl Canvas {
    /// The offsets stay within the range that a negated `i32` reaches.
    pub closed spec fn wf(&self) -> bool {
        self.x_offset <= i32::MAX && self.y_offset <= i32::MAX
    }

    /// The glyph shown at logical position `(x, y)`; never-written cells are blank.
    pub closed spec fn glyph_at(&self, x: int, y: int) -> char {
        let j = y + self.y_offset;
        let i = x + self.x_offset;
        if 0 <= j < self.canvas@.len() && 0 <= i < self.canvas@[j]@.len() {
            self.canvas@[j]@[i]
        } else {
            ' '
        }
    }

    /// The stored rows, bottom row first.
    closed spec fn rows(&self) -> Seq<Seq<char>> {
        self.canvas@.map_values(|r: Vec<char>| r@)
    }

    /// The stored rows and offsets.
    pub closed spec fn view(&self) -> Grid {
        Grid { rows: self.rows(), x_offset: self.x_offset as int, y_offset: self.y_offset as int }
    }

    /// The rendered text: the rows from the top down, each ended by a line break.
    pub open spec fn rendered(&self) -> Seq<char> {
        render_rows(self.view().rows)
    }

    /// The glyphs that `glyph_at` reports are the ones the view shows.
    pub proof fn lemma_view_glyphs(&self)
        ensures
            forall|x: int, y: int| #[trigger] self.glyph_at(x, y) == self.view().glyph_at(x, y),
    {
    }

    /// An empty canvas: every cell blank, nothing to render.
    pub fn new() -> (r: Canvas)
        ensures
            r.wf(),
            forall|x: int, y: int| #[trigger] r.glyph_at(x, y) == ' ',
            r.view() == Grid::empty(),
            r.rendered() == Seq::<char>::empty(),
    {
        let canvas: Vec<Vec<char>> = Vec::new();
        let r = Canvas { canvas, x_offset: 0, y_offset: 0 };
        assert(r.rows() =~= Seq::<Seq<char>>::empty());
        r
    }

    /// Storage index of a logical coordinate whose storage index is known to
    /// be non-negative.
    fn calc_vec_index(point: i32, offset: usize) -> (i: usize)
        requires
            point + offset >= 0,
            offset <= i32::MAX,
        ensures
            i == point + offset,
    {
        if point >= 0 {
            (point as usize) + offset
        } else {
            offset - ((-(point as i64)) as usize)
        }
    }

    /// Puts `n` blanks in front of a row.
    fn pad_front(row: &mut Vec<char>, n: usize)
        ensures
            final(row)@ == blanks(n as nat) + old(row)@,
    {
        let ghost start = row@;
        let mut k: usize = 0;
        while k < n
            invariant
                k <= n,
                row@ == blanks(k as nat) + start,
            decreases n - k,
        {
            row.insert(0, ' ');
            k = k + 1;
            assert(row@ =~= blanks(k as nat) + start);
        }
    }

    /// Writes `c` at index `i` of a row, first padding the row with blanks
    /// where it is too short.
    fn write_cell(row: &mut Vec<char>, i: usize, c: char)
        requires
            i < usize::MAX,
        ensures
            final(row)@.len() == (if i < old(row)@.len() { old(row)@.len() as int } else { i + 1 }),
            final(row)@[i as int] == c,
            forall|k: int|
                0 <= k < final(row)@.len() && k != i ==> #[trigger] final(row)@[k] == if k < old(
                    row,
                )@.len() {
                    old(row)@[k]
                } else {
                    ' '
                },
    {
        let ghost start = row@;
        while row.len() <= i
            invariant
                i < usize::MAX,
                start.len() <= row@.len() <= i + 1 || row@.len() == start.len(),
                row@.subrange(0, start.len() as int) == start,
                forall|k: int| start.len() <= k < row@.len() ==> #[trigger] row@[k] == ' ',
            decreases i + 1 - row.len(),
        {
            row.push(' ');
        }
        row[i] = c;
    }

    /// Adds `extra` empty rows below the stored ones and raises the row
    /// offset to match; no cell changes.
    fn grow_down(&mut self, extra: usize)
        requires
            old(self).wf(),
            old(self).y_offset + extra <= i32::MAX,
        ensures
            final(self).wf(),
            final(self).y_offset == old(self).y_offset + extra,
            final(self).x_offset == old(self).x_offset,
            final(self).canvas@.len() == old(self).canvas@.len() + extra,
            forall|x: int, y: int| #[trigger] final(self).glyph_at(x, y) == old(self).glyph_at(x, y),
            forall|j: int| #[trigger] final(self).view().row_len(j) == old(self).view().row_len(j - extra),
    {
        let ghost before = *self;
        let mut rows: Vec<Vec<char>> = Vec::new();
        let mut k: usize = 0;
        while k < extra
            invariant
                k <= extra,
                rows@.len() == k,
                forall|j: int| 0 <= j < k ==> (#[trigger] rows@[j])@.len() == 0,
            decreases extra - k,
        {
            rows.push(Vec::new());
            k = k + 1;
        }
        rows.append(&mut self.canvas);
        self.canvas = rows;
        self.y_offset = self.y_offset + extra;
        assert forall|x: int, y: int| #[trigger] self.glyph_at(x, y) == before.glyph_at(x, y) by {
            let j = y + self.y_offset;
            if 0 <= j < extra {
                assert(self.canvas@[j] == rows@[j]);
            } else if extra <= j < self.canvas@.len() {
                assert(self.canvas@[j] == before.canvas@[j - extra]);
            }
        }
        assert forall|j: int| #[trigger] self.view().row_len(j) == before.view().row_len(j - extra) by {
            if 0 <= j < extra {
                assert(self.canvas@[j] == rows@[j]);
            } else if extra <= j < self.canvas@.len() {
                assert(self.canvas@[j] == before.canvas@[j - extra]);
            }
        }
    }

    /// Adds empty rows above the stored ones until index `j` exists; no cell
    /// changes.
    fn grow_up(&mut self, j: usize)
        requires
            old(self).wf(),
            j < usize::MAX,
        ensures
            final(self).wf(),
            final(self).y_offset == old(self).y_offset,
            final(self).x_offset == old(self).x_offset,
            final(self).canvas@.len() > j,
            final(self).canvas@.len() >= old(self).canvas@.len(),
            final(self).canvas@.len() == old(self).canvas@.len() || final(self).canvas@.len() == j + 1,
            forall|x: int, y: int| #[trigger] final(self).glyph_at(x, y) == old(self).glyph_at(x, y),
            forall|k: int| #[trigger] final(self).view().row_len(k) == old(self).view().row_len(k),
    {
        let ghost before = *self;
        while self.canvas.len() <= j
            invariant
                self.wf(),
                j < usize::MAX,
                self.y_offset == before.y_offset,
                self.x_offset == before.x_offset,
                self.canvas@.len() >= before.canvas@.len(),
                self.canvas@.len() == before.canvas@.len() || self.canvas@.len() <= j + 1,
                forall|x: int, y: int| #[trigger] self.glyph_at(x, y) == before.glyph_at(x, y),
                forall|k: int| #[trigger] self.view().row_len(k) == before.view().row_len(k),
            decreases j + 1 - self.canvas.len(),
        {
            let ghost prev = *self;
            self.canvas.push(Vec::new());
            assert forall|k: int| #[trigger] self.view().row_len(k) == prev.view().row_len(k) by {
                if 0 <= k < prev.canvas@.len() {
                    assert(self.canvas@[k] == prev.canvas@[k]);
                }
            }
            assert forall|x: int, y: int| #[trigger] self.glyph_at(x, y) == prev.glyph_at(x, y) by {
                let jj = y + self.y_offset;
                if 0 <= jj < prev.canvas@.len() {
                    assert(self.canvas@[jj] == prev.canvas@[jj]);
                }
            }
        }
    }

    /// Puts `extra` blanks in front of every stored row that holds glyphs,
    /// and of row `target`, and raises the column offset to match; no cell
    /// changes.
    fn grow_left(&mut self, extra: usize, target: usize)
        requires
            old(self).wf(),
            old(self).x_offset + extra <= i32::MAX,
        ensures
            final(self).wf(),
            final(self).x_offset == old(self).x_offset + extra,
            final(self).y_offset == old(self).y_offset,
            final(self).canvas@.len() == old(self).canvas@.len(),
            target < old(self).canvas@.len() ==> final(self).canvas@[target as int]@.len()
                == old(self).canvas@[target as int]@.len() + extra,
            forall|x: int, y: int| #[trigger] final(self).glyph_at(x, y) == old(self).glyph_at(x, y),
            forall|j: int|
                #[trigger] final(self).view().row_len(j) == if 0 <= j < old(self).canvas@.len() && (old(
                    self,
                ).view().row_len(j) > 0 || j == target) {
                    old(self).view().row_len(j) + extra
                } else {
                    old(self).view().row_len(j)
                },
    {
        let ghost before = *self;
        let n = self.canvas.len();
        let mut j: usize = 0;
        while j < n
            invariant
                j <= n,
                n == before.canvas@.len(),
                self.canvas@.len() == n,
                self.x_offset == before.x_offset,
                self.y_offset == before.y_offset,
                forall|k: int|
                    0 <= k < j ==> (#[trigger] self.canvas@[k])@ == if before.canvas@[k]@.len() > 0
                        || k == target {
                        blanks(extra as nat) + before.canvas@[k]@
                    } else {
                        before.canvas@[k]@
                    },
                forall|k: int| j <= k < n ==> #[trigger] self.canvas@[k] == before.canvas@[k],
            decreases n - j,
        {
            if !self.canvas[j].is_empty() || j == target {
                Canvas::pad_front(&mut self.canvas[j], extra);
            }
            j = j + 1;
        }
        self.x_offset = self.x_offset + extra;
        assert forall|x: int, y: int| #[trigger] self.glyph_at(x, y) == before.glyph_at(x, y) by {
            let jj = y + self.y_offset;
            let i = x + self.x_offset;
            if 0 <= jj < n {
                let old_row = before.canvas@[jj]@;
                if old_row.len() > 0 || jj == target {
                    if 0 <= i < extra {
                        assert(self.canvas@[jj]@[i] == ' ');
                    } else if extra <= i < self.canvas@[jj]@.len() {
                        assert(self.canvas@[jj]@[i] == old_row[i - extra]);
                    }
                }
            }
        }
        assert forall|jj: int|
            #[trigger] self.view().row_len(jj) == if 0 <= jj < before.canvas@.len() && (
            before.view().row_len(jj) > 0 || jj == target) {
                before.view().row_len(jj) + extra
            } else {
                before.view().row_len(jj)
            } by {
            if 0 <= jj < n {
                assert(self.canvas@[jj]@ == if before.canvas@[jj]@.len() > 0 || jj == target {
                    blanks(extra as nat) + before.canvas@[jj]@
                } else {
                    before.canvas@[jj]@
                });
            }
        }
    }

    /// Writes glyph `c` at `point`, growing the grid in whatever direction is
    /// needed. Afterwards `point` reads back as `c` and every other cell reads
    /// as before.
    pub fn put(&mut self, point: Point, c: char)
        requires
            old(self).wf(),
            point.x > i32::MIN,
            point.y > i32::MIN,
        ensures
            final(self).wf(),
            final(self).glyph_at(point.x as int, point.y as int) == c,
            forall|x: int, y: int|
                (x, y) != (point.x as int, point.y as int) ==> #[trigger] final(self).glyph_at(x, y)
                    == old(self).glyph_at(x, y),
            final(self).view() == old(self).view().put(point.x as int, point.y as int, c),
    {
        let ghost before = *self;
        if point.y < 0 && ((-point.y) as usize) > self.y_offset {
            let extra = ((-point.y) as usize) - self.y_offset;
            self.grow_down(extra);
        }
        let ghost s1 = *self;
        let y_index = Canvas::calc_vec_index(point.y, self.y_offset);
        self.grow_up(y_index);
        let ghost s2 = *self;
        if point.x < 0 && ((-point.x) as usize) > self.x_offset {
            let extra = ((-point.x) as usize) - self.x_offset;
            self.grow_left(extra, y_index);
        }
        let x_index = Canvas::calc_vec_index(point.x, self.x_offset);
        let ghost mid = *self;
        Canvas::write_cell(&mut self.canvas[y_index], x_index, c);
        assert forall|x: int, y: int|
            (x, y) != (point.x as int, point.y as int) implies #[trigger] self.glyph_at(x, y)
                == mid.glyph_at(x, y) by {
            let jj = y + self.y_offset;
            if 0 <= jj < self.canvas@.len() && jj != y_index {
                assert(self.canvas@[jj] == mid.canvas@[jj]);
            }
        }
        proof {
            let g = before.view();
            let px = point.x as int;
            let py = point.y as int;
            reveal(Grid::put);
            let spec = g.put(px, py, c);
            assert(self.x_offset == g.put_x_offset(px));
            assert(self.y_offset == g.put_y_offset(py));
            assert(self.canvas@.len() == g.put_row_count(py));
            assert forall|j: int| 0 <= j < self.canvas@.len() implies #[trigger] self.view().rows[j]
                =~= spec.rows[j] by {
                if j != y_index {
                    assert(self.canvas@[j] == mid.canvas@[j]);
                }
                let dy = self.y_offset - before.y_offset;
                let dx = self.x_offset - before.x_offset;
                assert(s1.view().row_len(j) == g.row_len(j - dy));
                assert(s2.view().row_len(j) == g.row_len(j - dy));
                assert(mid.view().row_len(j) == if g.row_len(j - dy) > 0 || j == y_index {
                    g.row_len(j - dy) + dx
                } else {
                    g.row_len(j - dy)
                });
                assert(self.view().row_len(j) == g.put_row_len(px, py, j));
                assert forall|i: int| 0 <= i < self.view().rows[j].len() implies self.view().rows[j][i]
                    == spec.rows[j][i] by {
                    assert(self.view().rows[j][i] == self.glyph_at(
                        i - self.x_offset,
                        j - self.y_offset,
                    ));
                }
            }
            assert(self.view().rows =~= spec.rows);
        }
    }

    /// Whether the cell at `point` is blank; cells outside the stored grid are.
    pub fn is_blank_point(&self, point: Point) -> (r: bool)
        requires
            self.wf(),
        ensures
            r == (self.glyph_at(point.x as int, point.y as int) == ' '),
    {
        self.char_at(point) == ' '
    }

    /// Whether the cell at `point` holds `c`.
    pub fn is_char_point(&self, point: Point, c: char) -> (r: bool)
        requires
            self.wf(),
        ensures
            r == (self.glyph_at(point.x as int, point.y as int) == c),
    {
        self.char_at(point) == c
    }

    /// The glyph at `point`.
    fn char_at(&self, point: Point) -> (r: char)
        requires
            self.wf(),
        ensures
            r == self.glyph_at(point.x as int, point.y as int),
    {
        let j: i64 = point.y as i64 + self.y_offset as i64;
        let i: i64 = point.x as i64 + self.x_offset as i64;
        if j < 0 || j as usize >= self.canvas.len() {
            return ' ';
        }
        let row = &self.canvas[j as usize];
        if i < 0 || i as usize >= row.len() {
            return ' ';
        }
        row[i as usize]
    }

    /// The rendered grid: one line per stored row, topmost first, each ended
    /// by a line break; an empty canvas renders as the empty string.
    pub fn to_string(&self) -> (r: String)
        ensures
            r@ == self.rendered(),
    {
        let mut out = String::new();
        let n = self.canvas.len();
        let mut k: usize = n;
        assert(self.rows().subrange(0, n as int) =~= self.rows());
        assert(out@ + self.rendered() =~= self.rendered());
        while k > 0
            invariant
                k <= n,
                n == self.canvas@.len(),
                out@ + render_rows(self.rows().subrange(0, k as int)) == self.rendered(),
            decreases k,
        {
            let ghost pre = self.rows().subrange(0, k as int);
            assert(pre.drop_last() =~= self.rows().subrange(0, k - 1));
            let row = &self.canvas[k - 1];
            let ghost out0 = out@;
            let mut i: usize = 0;
            while i < row.len()
                invariant
                    i <= row@.len(),
                    out@ == out0 + row@.subrange(0, i as int),
                decreases row@.len() - i,
            {
                push_char(&mut out, row[i]);
                i = i + 1;
                assert(out@ =~= out0 + row@.subrange(0, i as int));
            }
            push_char(&mut out, '\n');
            assert(row@.subrange(0, row@.len() as int) =~= row@);
            assert(out@ =~= out0 + pre.last() + seq!['\n']);
            k = k - 1;
        }
        assert(self.rows().subrange(0, 0) =~= Seq::<Seq<char>>::empty());
        assert(out@ + Seq::<char>::empty() =~= out@);
        out
    }
}

} // verus!
