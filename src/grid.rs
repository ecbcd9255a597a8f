//! A dense, fixed-size two-dimensional grid of elements.
use crate::point::{index_of, Point};
use vstd::arithmetic::div_mod::lemma_fundamental_div_mod;
use vstd::prelude::*;
use vstd::std_specs::iter::IteratorSpec;
use vstd::string::to_string_from_display_ensures;

verus! {

/// The two ways in which a grid operation can fail.
#[derive(Debug, Clone, Copy, PartialEq, Eq, Structural)]
pub enum GridError {
    /// The supplied data cannot be arranged into a rectangle of the requested
    /// or inferred width.
    InvalidShape,
    /// An access targets a linear index at or beyond the grid's area.
    OutOfBounds,
}

/// Whether `len` cells can be laid out in full rows of `width` cells. With no
/// columns only an empty sequence can.
pub open spec fn fits_width(len: nat, width: nat) -> bool {
    if width == 0 {
        len == 0
    } else {
        len % width == 0
    }
}

/// The number of columns of a matrix given as rows: the length of its first
/// row, and zero when it has no rows.
pub open spec fn matrix_width<T>(m: Seq<Seq<T>>) -> nat {
    if m.len() == 0 {
        0
    } else {
        m[0].len()
    }
}

/// Whether every row of `m` is as long as its first.
pub open spec fn is_rectangular<T>(m: Seq<Seq<T>>) -> bool {
    forall|i: int| 0 <= i < m.len() ==> (#[trigger] m[i]).len() == matrix_width(m)
}

/// The contents of a `Vec` of row `Vec`s.
pub open spec fn matrix_view<T>(m: Seq<Vec<T>>) -> Seq<Seq<T>> {
    m.map_values(|row: Vec<T>| row@)
}

/// Row-major `cells` cut into `height` rows of `width` cells each.
pub open spec fn rows_of<T>(cells: Seq<T>, width: nat, height: nat) -> Seq<Seq<T>> {
    Seq::new(height, |i: int| cells.subrange(i * width, i * width + width))
}

/// Flattening rows that all have `w` cells puts cell `j` of row `i` at `i * w + j`.
proof fn lemma_flatten_rows<T>(m: Seq<Seq<T>>, w: nat)
    requires
        forall|i: int| 0 <= i < m.len() ==> (#[trigger] m[i]).len() == w,
    ensures
        m.flatten().len() == m.len() * w,
        forall|i: int, j: int|
            0 <= i < m.len() && 0 <= j < w ==> m.flatten()[i * w + j] == #[trigger] m[i][j],
    decreases m.len(),
{
    if m.len() > 0 {
        let init = m.drop_last();
        lemma_flatten_rows(init, w);
        assert(init.push(m.last()) == m);
        init.lemma_flatten_push(m.last());
        let n = init.len();
        assert(m.flatten().len() == m.len() * w) by (nonlinear_arith)
            requires m.flatten().len() == n * w + w, m.len() == n + 1;
        assert forall|i: int, j: int| 0 <= i < m.len() && 0 <= j < w implies m.flatten()[i * w + j]
            == #[trigger] m[i][j] by {
            if i < n {
                assert(i * w + j < n * w) by (nonlinear_arith) requires i < n, j < w;
                assert(init[i] == m[i]);
            } else {
                assert(i * w == n * w);
            }
        }
    }
}

/// A rectangular matrix, flattened and cut again into rows of its width, is the
/// matrix it was: building a grid from rows and reading its rows back gives the
/// rows that went in.
pub proof fn lemma_matrix_round_trip<T>(m: Seq<Seq<T>>)
    requires
        is_rectangular(m),
    ensures
        m.flatten().len() == m.len() * matrix_width(m),
        rows_of(m.flatten(), matrix_width(m), m.len()) == m,
{
    let w = matrix_width(m);
    lemma_flatten_rows(m, w);
    let r = rows_of(m.flatten(), w, m.len());
    assert forall|i: int| 0 <= i < m.len() implies #[trigger] r[i] == m[i] by {
        assert(i * w + w <= m.len() * w) by (nonlinear_arith) requires i < m.len();
        assert(r[i] =~= m[i]);
    }
    assert(r =~= m);
}

/// The text of one row: the texts of cells `width * y` to `width * y + width - 1`
/// one after another, then a newline.
pub open spec fn row_text(texts: Seq<Seq<char>>, width: nat, y: int) -> Seq<char> {
    texts.subrange(y * width, y * width + width).flatten().push('\n')
}

/// The text of a grid whose cells, in row-major order, render as `texts`:
/// `height` lines, one per row.
pub open spec fn grid_text(texts: Seq<Seq<char>>, width: nat, height: nat) -> Seq<char> {
    Seq::new(height, |y: int| row_text(texts, width, y)).flatten()
}

/// Relies on `String::push_str`: appends the characters of `tail` to `s`.
#[verifier::external_body]
fn append_str(s: &mut String, tail: &str)
    ensures
        final(s)@ == old(s)@ + tail@,
{
    s.push_str(tail)
}

/// A dense fixed-size grid whose cells are stored row by row in a `Vec`.
#[derive(Clone, Debug)]
pub struct Grid<T: Clone> {
    data: Vec<T>,
    width: usize,
    height: usize,
}

impl<T: Clone> Grid<T> {
    /// The cells in row-major order: cell `(x, y)` is at `y * width + x`.
    pub closed spec fn cells(&self) -> Seq<T> {
        self.data@
    }

    /// The number of columns.
    pub closed spec fn spec_width(&self) -> nat {
        self.width as nat
    }

    /// The number of rows.
    pub closed spec fn spec_height(&self) -> nat {
        self.height as nat
    }

    /// The number of cells, `width * height`.
    pub open spec fn spec_area(&self) -> nat {
        self.spec_width() * self.spec_height()
    }

    /// Well-formedness: every one of the `width * height` slots holds a cell.
    pub open spec fn wf(&self) -> bool {
        self.cells().len() == self.spec_area()
    }

    /// The cell in column `x` of row `y`.
    pub open spec fn cell_at(&self, x: int, y: int) -> T {
        self.cells()[y * self.spec_width() + x]
    }

    /// Creates a new grid of the specified `width` and `height`, filling with `default`.
    pub fn new(width: usize, height: usize, default: T) -> (r: Self)
        requires
            width * height <= usize::MAX,
        ensures
            r.wf(),
            r.spec_width() == width,
            r.spec_height() == height,
            forall|i: int| 0 <= i < r.cells().len() ==> cloned(default, #[trigger] r.cells()[i]),
    {
        let n = width * height;
        Grid { data: vec![default; n], width, height }
    }

    /// Creates a new grid of the specified `width`, inferring the height from the
    /// length of `data`. Fails when `data` cannot be cut into full rows of `width`.
    pub fn with_width(width: usize, data: Vec<T>) -> (r: Result<Self, GridError>)
        ensures
            r is Ok <==> fits_width(data@.len(), width as nat),
            r matches Ok(g) ==> g.wf(),
            r matches Ok(g) ==> g.cells() == data@,
            r matches Ok(g) ==> g.spec_width() == width,
            r matches Ok(g) ==> g.spec_height() == if width == 0 { 0 } else { data@.len() / (width as nat) },
            r matches Err(e) ==> e == GridError::InvalidShape,
    {
        let len = data.len();
        if width == 0 {
            if len == 0 {
                let g = Grid { data, width: 0, height: 0 };
                assert(g.wf());
                Ok(g)
            } else {
                Err(GridError::InvalidShape)
            }
        } else if len % width != 0 {
            Err(GridError::InvalidShape)
        } else {
            let height = len / width;
            proof {
                lemma_fundamental_div_mod(len as int, width as int);
                assert(width * height == len) by (nonlinear_arith)
                    requires len as int == width * height + 0;
            }
            let g = Grid { data, width, height };
            assert(g.wf());
            Ok(g)
        }
    }

    /// Builds a grid from rows of cells: the row count is the height and the
    /// common row length the width; no rows give an empty grid. Fails when the
    /// rows differ in length.
    pub fn from_matrix(data: Vec<Vec<T>>) -> (r: Result<Self, GridError>)
        ensures
            r is Ok <==> is_rectangular(matrix_view(data@)),
            r matches Ok(g) ==> g.wf(),
            r matches Ok(g) ==> g.cells() == matrix_view(data@).flatten(),
            r matches Ok(g) ==> g.spec_width() == matrix_width(matrix_view(data@)),
            r matches Ok(g) ==> g.spec_height() == data@.len(),
            r matches Err(e) ==> e == GridError::InvalidShape,
    {
        let ghost m = matrix_view(data@);
        let height = data.len();
        if height == 0 {
            let g = Grid { data: Vec::new(), width: 0, height: 0 };
            assert(g.cells().len() == 0);
            assert(g.spec_width() * g.spec_height() == 0) by (nonlinear_arith)
                requires g.spec_width() == 0;
            assert(m.flatten() =~= g.cells());
            return Ok(g);
        }
        let width = data[0].len();
        let mut i: usize = 0;
        while i < height
            invariant
                height == data@.len(),
                width == matrix_width(m),
                m == matrix_view(data@),
                forall|k: int| 0 <= k < i ==> (#[trigger] m[k]).len() == width,
            decreases height - i,
        {
            if data[i].len() != width {
                assert(m[i as int] == data@[i as int]@);
                return Err(GridError::InvalidShape);
            }
            i = i + 1;
        }
        proof {
            lemma_flatten_rows(m, width as nat);
        }
        let mut rows = data;
        let mut cells: Vec<T> = Vec::new();
        let mut i: usize = 0;
        while i < height
            invariant
                height == rows@.len(),
                is_rectangular(m),
                width == matrix_width(m),
                m.len() == height,
                m.flatten().len() == height * width,
                m == matrix_view(data@),
                i <= height,
                cells@ == m.take(i as int).flatten(),
                forall|k: int| i <= k < height ==> (#[trigger] rows@[k])@ == m[k],
            decreases height - i,
        {
            let mut row: Vec<T> = Vec::new();
            rows.set_and_swap(i, &mut row);
            proof {
                assert(m.take(i + 1) == m.take(i as int).push(m[i as int]));
                m.take(i as int).lemma_flatten_push(m[i as int]);
            }
            cells.append(&mut row);
            i = i + 1;
        }
        assert(m.take(height as int) =~= m);
        assert(cells@ == m.flatten());
        let g = Grid { data: cells, width, height };
        assert(g.wf()) by (nonlinear_arith)
            requires g.cells().len() == height * width, g.spec_width() == width,
                g.spec_height() == height;
        Ok(g)
    }

    /// Returns the grid as rows of cells: `height` rows of `width` cells, each a
    /// clone of the cell at that column and row.
    pub fn to_matrix(&self) -> (r: Vec<Vec<T>>)
        requires
            self.wf(),
        ensures
            matrix_view(r@).len() == self.spec_height(),
            forall|i: int| 0 <= i < self.spec_height() ==>
                (#[trigger] matrix_view(r@)[i]).len() == self.spec_width(),
            forall|i: int, j: int| 0 <= i < self.spec_height() && 0 <= j < self.spec_width()
                ==> cloned(
                    rows_of(self.cells(), self.spec_width(), self.spec_height())[i][j],
                    #[trigger] matrix_view(r@)[i][j],
                ),
    {
        let w = self.width;
        let h = self.height;
        let n = self.data.len();
        let ghost rows = rows_of(self.cells(), w as nat, h as nat);
        let mut out: Vec<Vec<T>> = Vec::with_capacity(h);
        let mut y: usize = 0;
        while y < h
            invariant
                self.wf(),
                w == self.spec_width(),
                h == self.spec_height(),
                rows == rows_of(self.cells(), w as nat, h as nat),
                n == self.cells().len(),
                y <= h,
                out@.len() == y,
                forall|i: int| 0 <= i < y ==> (#[trigger] out@[i])@.len() == w,
                forall|i: int, j: int| 0 <= i < y && 0 <= j < w
                    ==> cloned(rows[i][j], #[trigger] out@[i]@[j]),
            decreases h - y,
        {
            proof {
                assert(y * w + w <= n) by (nonlinear_arith) requires y < h, n == w * h;
            }
            let start = y * w;
            let mut row: Vec<T> = Vec::with_capacity(w);
            let mut x: usize = 0;
            while x < w
                invariant
                    self.wf(),
                    w == self.spec_width(),
                    h == self.spec_height(),
                    rows == rows_of(self.cells(), w as nat, h as nat),
                    y < h,
                    start == y * w,
                    start + w <= n,
                    n == self.cells().len(),
                    x <= w,
                    row@.len() == x,
                    forall|j: int| 0 <= j < x ==> cloned(rows[y as int][j], #[trigger] row@[j]),
                decreases w - x,
            {
                let cell = self.data[start + x].clone();
                assert(rows[y as int][x as int] == self.cells()[start + x]);
                row.push(cell);
                x = x + 1;
            }
            out.push(row);
            y = y + 1;
        }
        proof {
            assert forall|i: int| 0 <= i < h implies (#[trigger] matrix_view(out@)[i]).len() == w by {
                assert(matrix_view(out@)[i] == out@[i]@);
            }
            assert forall|i: int, j: int| 0 <= i < h && 0 <= j < w implies cloned(
                rows[i][j],
                #[trigger] matrix_view(out@)[i][j],
            ) by {
                assert(matrix_view(out@)[i] == out@[i]@);
            }
        }
        out
    }

    /// Returns an iterator over the cells in row-major order: `(0, 0)`,
    /// `(1, 0)`, ..., `(width - 1, 0)`, `(0, 1)`, ... Each call starts afresh at
    /// index 0, and calls on the same grid yield the same cells.
    pub fn iter(&self) -> (r: std::slice::Iter<'_, T>)
        ensures
            r.remaining() == self.cells().as_ref(),
    {
        broadcast use vstd::std_specs::slice::axiom_spec_slice_iter;
        self.data.as_slice().iter()
    }

    /// Visits every cell once, in row-major order, replacing it with what `f`
    /// returns for it. The shape is kept.
    pub fn update_each<F: Fn(&T) -> T>(&mut self, f: F)
        requires
            old(self).wf(),
            forall|i: int| 0 <= i < old(self).cells().len() ==> f.requires((&old(self).cells()[i],)),
        ensures
            final(self).wf(),
            final(self).spec_width() == old(self).spec_width(),
            final(self).spec_height() == old(self).spec_height(),
            final(self).cells().len() == old(self).cells().len(),
            forall|i: int| 0 <= i < old(self).cells().len()
                ==> f.ensures((&old(self).cells()[i],), #[trigger] final(self).cells()[i]),
    {
        let ghost before = self.cells();
        let n = self.data.len();
        let mut i: usize = 0;
        while i < n
            invariant
                self.wf(),
                self.spec_width() == old(self).spec_width(),
                self.spec_height() == old(self).spec_height(),
                before == old(self).cells(),
                n == before.len(),
                self.cells().len() == n,
                i <= n,
                forall|k: int| 0 <= k < n ==> f.requires((&before[k],)),
                forall|k: int| 0 <= k < i ==> f.ensures((&before[k],), #[trigger] self.cells()[k]),
                forall|k: int| i <= k < n ==> #[trigger] self.cells()[k] == before[k],
            decreases n - i,
        {
            let v = f(&self.data[i]);
            self.data.set(i, v);
            i = i + 1;
        }
    }

    /// Returns the cells in row-major order.
    pub fn as_vec(&self) -> (r: &Vec<T>)
        ensures
            r@ == self.cells(),
    {
        &self.data
    }

    /// Returns the width of the grid.
    pub fn width(&self) -> (r: usize)
        ensures
            r == self.spec_width(),
    {
        self.width
    }

    /// Returns the height of the grid.
    pub fn height(&self) -> (r: usize)
        ensures
            r == self.spec_height(),
    {
        self.height
    }

    /// Returns the number of cells, `width * height`.
    pub fn area(&self) -> (r: usize)
        requires
            self.wf(),
        ensures
            r == self.spec_area(),
    {
        self.data.len()
    }

    /// Returns the cell at linear `index` of the row-major store. Fails when
    /// `index` is not below the area, which is every index of an empty grid.
    pub fn index(&self, index: usize) -> (r: Result<&T, GridError>)
        requires
            self.wf(),
        ensures
            index < self.spec_area() <==> r is Ok,
            r matches Ok(v) ==> *v == self.cells()[index as int],
            r matches Err(e) ==> e == GridError::OutOfBounds,
    {
        if index < self.data.len() {
            Ok(&self.data[index])
        } else {
            Err(GridError::OutOfBounds)
        }
    }

    /// Replaces the cell at linear `index` with `value`. Fails, leaving the grid
    /// as it was, when `index` is not below the area.
    pub fn set(&mut self, index: usize, value: T) -> (r: Result<(), GridError>)
        requires
            old(self).wf(),
        ensures
            final(self).wf(),
            final(self).spec_width() == old(self).spec_width(),
            final(self).spec_height() == old(self).spec_height(),
            index < old(self).spec_area() <==> r is Ok,
            r is Ok ==> final(self).cells() == old(self).cells().update(index as int, value),
            r matches Err(e) ==> e == GridError::OutOfBounds && final(self).cells() == old(self).cells(),
    {
        if index < self.data.len() {
            self.data.set(index, value);
            Ok(())
        } else {
            Err(GridError::OutOfBounds)
        }
    }

    /// The linear index of `p`, or `None` when it lies at or beyond the area
    /// (the projection `y * width + x` may exceed any machine integer there).
    fn linear_index<P: Point>(&self, p: &P) -> (r: Option<usize>)
        requires
            self.wf(),
        ensures
            r matches Some(i) ==> i == index_of(p.spec_x() as int, p.spec_y() as int, self.spec_width() as int),
            r is Some <==> index_of(p.spec_x() as int, p.spec_y() as int, self.spec_width() as int) < self.spec_area(),
    {
        let x = p.x();
        let y = p.y();
        let w = self.width;
        let h = self.height;
        let area = self.data.len();
        if y >= h {
            proof {
                assert(y * w + x >= area) by (nonlinear_arith)
                    requires y >= h, area == w * h, x >= 0;
            }
            return None;
        }
        proof {
            assert(y * w + w <= area) by (nonlinear_arith)
                requires y < h, area == w * h;
        }
        let row_start = y * w;
        if x >= area - row_start {
            None
        } else {
            Some(p.to_index(w))
        }
    }

    /// Returns the cell at point `p`, projected to the linear index
    /// `y * width + x`. Fails when that index is not below the area.
    pub fn index_point<P: Point>(&self, p: P) -> (r: Result<&T, GridError>)
        requires
            self.wf(),
        ensures
            index_of(p.spec_x() as int, p.spec_y() as int, self.spec_width() as int) < self.spec_area()
                <==> r is Ok,
            r matches Ok(v) ==> *v == self.cell_at(p.spec_x() as int, p.spec_y() as int),
            r matches Err(e) ==> e == GridError::OutOfBounds,
    {
        match self.linear_index(&p) {
            Some(i) => self.index(i),
            None => Err(GridError::OutOfBounds),
        }
    }

    /// Replaces the cell at point `p` with `value`. Fails, leaving the grid as it
    /// was, when the projected index `y * width + x` is not below the area.
    pub fn set_point<P: Point>(&mut self, p: P, value: T) -> (r: Result<(), GridError>)
        requires
            old(self).wf(),
        ensures
            final(self).wf(),
            final(self).spec_width() == old(self).spec_width(),
            final(self).spec_height() == old(self).spec_height(),
            index_of(p.spec_x() as int, p.spec_y() as int, old(self).spec_width() as int)
                < old(self).spec_area() <==> r is Ok,
            r is Ok ==> final(self).cells() == old(self).cells().update(
                index_of(p.spec_x() as int, p.spec_y() as int, old(self).spec_width() as int),
                value,
            ),
            r matches Err(e) ==> e == GridError::OutOfBounds && final(self).cells() == old(self).cells(),
    {
        match self.linear_index(&p) {
            Some(i) => self.set(i, value),
            None => Err(GridError::OutOfBounds),
        }
    }
}

impl<T: Clone + std::fmt::Display> Grid<T> {
    /// Renders the grid as text: for each row, the `Display` text of its cells
    /// one after another, followed by a newline.
    pub fn to_text(&self) -> (r: String)
        requires
            self.wf(),
        ensures
            exists|texts: Seq<String>|
                {
                    &&& texts.len() == self.cells().len()
                    &&& forall|i: int| 0 <= i < texts.len()
                        ==> to_string_from_display_ensures::<T>(&self.cells()[i], #[trigger] texts[i])
                    &&& r@ == grid_text(texts.map_values(|t: String| t@), self.spec_width(), self.spec_height())
                },
    {
        let w = self.width;
        let h = self.height;
        let n = self.data.len();
        let mut out = String::new();
        let ghost mut texts: Seq<String> = Seq::empty();
        let ghost mut lines: Seq<Seq<char>> = Seq::empty();
        let mut y: usize = 0;
        while y < h
            invariant
                self.wf(),
                w == self.spec_width(),
                h == self.spec_height(),
                n == self.cells().len(),
                y <= h,
                texts.len() == y * w,
                forall|i: int| 0 <= i < texts.len()
                    ==> to_string_from_display_ensures::<T>(&self.cells()[i], #[trigger] texts[i]),
                lines.len() == y,
                forall|k: int| 0 <= k < y
                    ==> #[trigger] lines[k] == row_text(texts.map_values(|t: String| t@), w as nat, k),
                out@ == lines.flatten(),
            decreases h - y,
        {
            proof {
                assert(y * w + w <= n) by (nonlinear_arith) requires y < h, n == w * h;
            }
            let start = y * w;
            let ghost done = texts;
            let ghost line_start = out@;
            let mut x: usize = 0;
            while x < w
                invariant
                    self.wf(),
                    w == self.spec_width(),
                    n == self.cells().len(),
                    start + w <= n,
                    start == texts.len() - x,
                    x <= w,
                    texts.len() <= n,
                    texts.subrange(0, start as int) == done,
                    forall|i: int| 0 <= i < texts.len()
                        ==> to_string_from_display_ensures::<T>(&self.cells()[i], #[trigger] texts[i]),
                    out@ == line_start + texts.subrange(start as int, texts.len() as int).map_values(
                        |t: String| t@,
                    ).flatten(),
                decreases w - x,
            {
                let t = self.data[start + x].to_string();
                proof {
                    let old_part = texts.subrange(start as int, texts.len() as int).map_values(
                        |t: String| t@,
                    );
                    texts = texts.push(t);
                    let new_part = texts.subrange(start as int, texts.len() as int).map_values(
                        |t: String| t@,
                    );
                    assert(new_part =~= old_part.push(t@));
                    old_part.lemma_flatten_push(t@);
                    assert(texts.subrange(0, start as int) =~= done);
                }
                append_str(&mut out, t.as_str());
                x = x + 1;
            }
            let ghost row_part = out@;
            proof {
                reveal_strlit("\n");
            }
            append_str(&mut out, "\n");
            proof {
                let tv = texts.map_values(|t: String| t@);
                let dv = done.map_values(|t: String| t@);
                assert(texts.subrange(start as int, texts.len() as int).map_values(|t: String| t@)
                    =~= tv.subrange(y * w, y * w + w));
                let line = row_text(tv, w as nat, y as int);
                assert(out@ =~= lines.flatten() + line);
                lines.lemma_flatten_push(line);
                assert forall|k: int| 0 <= k < y implies row_text(tv, w as nat, k) == row_text(
                    dv,
                    w as nat,
                    k,
                ) by {
                    assert(k * w + w <= y * w) by (nonlinear_arith) requires k < y;
                    assert(tv.subrange(k * w, k * w + w) =~= dv.subrange(k * w, k * w + w));
                }
                lines = lines.push(line);
                assert(texts.len() == (y + 1) * w) by (nonlinear_arith)
                    requires texts.len() == y * w + w;
            }
            y = y + 1;
        }
        proof {
            let tv = texts.map_values(|t: String| t@);
            assert(texts.len() == n) by (nonlinear_arith)
                requires texts.len() == y * w, y == h, n == w * h;
            assert(lines =~= Seq::new(h as nat, |k: int| row_text(tv, w as nat, k)));
        }
        out
    }
}

/// Inside the grid, the point `(x, y)` projects below the area, and names the
/// cell that the linear index `y * width + x` names.
pub proof fn lemma_point_within_area<T: Clone>(g: Grid<T>, x: int, y: int)
    requires
        g.wf(),
        0 <= x < g.spec_width(),
        0 <= y < g.spec_height(),
    ensures
        0 <= index_of(x, y, g.spec_width() as int) < g.spec_area(),
        g.cell_at(x, y) == g.cells()[index_of(x, y, g.spec_width() as int)],
{
    let w = g.spec_width() as int;
    let h = g.spec_height() as int;
    assert(0 <= y * w + x < w * h) by (nonlinear_arith)
        requires 0 <= x < w, 0 <= y < h;
}

/// A write followed by a read: when `after` holds `before`'s cells with the one at
/// `index` replaced by `value`, reading `index` gives `value`, every other cell is
/// unchanged, and the shape is the same.
pub proof fn lemma_write_then_read<T: Clone>(before: Grid<T>, after: Grid<T>, index: int, value: T)
    requires
        before.wf(),
        after.wf(),
        after.spec_width() == before.spec_width(),
        after.spec_height() == before.spec_height(),
        0 <= index < before.spec_area(),
        after.cells() == before.cells().update(index, value),
    ensures
        after.cells()[index] == value,
        forall|j: int| 0 <= j < after.spec_area() && j != index
            ==> #[trigger] after.cells()[j] == before.cells()[j],
{
}

} // verus!
