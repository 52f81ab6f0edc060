//! The pixel grid that triangles are composited into.
use vstd::prelude::*;
use crate::color::Color;

verus! {

/// Bytes that one cell takes.
pub const CELL_BYTES: usize = 12;

/// Whether a grid of this size can be allocated: its cells together take
/// no more bytes than one allocation may have.
pub open spec fn can_hold(width: usize, height: usize) -> bool {
    width * height * CELL_BYTES <= isize::MAX
}

/// A grid of `height` rows of `width` colours, stored row by row in one
/// allocation. Its size never changes.
#[derive(Debug)]
pub struct FrameBuffer {
    width: usize,
    height: usize,
    cells: Vec<Color>,
}

impl View for FrameBuffer {
    type V = Seq<Seq<Color>>;

    /// The rows, top to bottom, each a sequence of cells from left to right.
    open spec fn view(&self) -> Seq<Seq<Color>> {
        Seq::new(self.spec_height() as nat, |row: int| Seq::new(self.spec_width() as nat, |col: int| self.at(row, col)))
    }
}

/// Whether the cell `(r, c)` comes before `(row, col)` when the grid is
/// walked row by row.
pub open spec fn precedes(r: int, c: int, row: int, col: int) -> bool {
    r < row || (r == row && c < col)
}

/// The place of a cell in row-major order lies within the grid.
pub proof fn lemma_cell_index(width: int, height: int, row: int, col: int)
    requires
        0 <= row < height,
        0 <= col < width,
    ensures
        0 <= row * width + col < width * height,
        row * width >= 0,
{
    assert(row * width + width <= height * width && row * width >= 0) by (nonlinear_arith)
        requires
            0 <= row < height,
            0 <= width,
    ;
    assert(height * width == width * height) by (nonlinear_arith);
}

/// No two cells of a row-major grid share a place.
pub proof fn lemma_cell_index_unique(width: int, r1: int, c1: int, r2: int, c2: int)
    requires
        0 <= c1 < width,
        0 <= c2 < width,
        r1 * width + c1 == r2 * width + c2,
    ensures
        r1 == r2,
        c1 == c2,
{
    assert(r1 == r2) by (nonlinear_arith)
        requires
            0 <= c1 < width,
            0 <= c2 < width,
            r1 * width + c1 == r2 * width + c2,
    ;
}

impl FrameBuffer {
    /// The stored cells are exactly those of the grid.
    pub closed spec fn stored(&self) -> bool {
        self.cells@.len() == self.width * self.height
    }

    /// Holds of every buffer: it has one cell for each place of a grid that
    /// can be allocated.
    #[verifier::type_invariant]
    pub open spec fn wf(&self) -> bool {
        &&& self.stored()
        &&& can_hold(self.width(), self.height())
    }

    pub closed spec fn spec_width(&self) -> usize {
        self.width
    }

    pub closed spec fn spec_height(&self) -> usize {
        self.height
    }

    /// The cell in row `row` and column `col`.
    pub closed spec fn at(&self, row: int, col: int) -> Color {
        self.cells@[row * self.width + col]
    }

    /// A grid of black cells, or `None` where a grid of this size cannot be
    /// allocated.
    pub fn new(width: usize, height: usize) -> (fb: Option<FrameBuffer>)
        ensures
            fb is Some <==> can_hold(width, height),
            match fb {
                Some(buffer) => {
                    &&& buffer.width() == width
                    &&& buffer.height() == height
                    &&& forall|row: int, col: int|
                        0 <= row < height && 0 <= col < width ==> #[trigger] buffer.at(row, col)
                            == Color::black()
                },
                None => true,
            },
    {
        let count: usize = match width.checked_mul(height) {
            Some(n) => n,
            None => { return None; },
        };
        if count > (isize::MAX as usize) / CELL_BYTES {
            return None;
        }
        let cells: Vec<Color> = vec![Color::black(); count];
        let buffer = FrameBuffer { width, height, cells };
        assert forall|row: int, col: int| 0 <= row < height && 0 <= col < width implies #[trigger] buffer.at(
            row,
            col,
        ) == Color::black() by {
            lemma_cell_index(width as int, height as int, row, col);
        }
        Some(buffer)
    }

    /// Cells per row.
    #[verifier::when_used_as_spec(spec_width)]
    pub fn width(&self) -> (w: usize)
        ensures
            w == self.spec_width(),
    {
        self.width
    }

    /// Number of rows.
    #[verifier::when_used_as_spec(spec_height)]
    pub fn height(&self) -> (h: usize)
        ensures
            h == self.spec_height(),
    {
        self.height
    }

    /// The colour of one cell.
    pub fn get(&self, row: usize, col: usize) -> (c: Color)
        requires
            row < self.height(),
            col < self.width(),
        ensures
            c == self.at(row as int, col as int),
    {
        proof {
            use_type_invariant(self);
            lemma_cell_index(self.width as int, self.height as int, row as int, col as int);
        }
        self.cells[row * self.width + col]
    }

    /// Replaces the colour of one cell and leaves every other cell alone.
    pub fn set(&mut self, row: usize, col: usize, color: Color)
        requires
            row < old(self).height(),
            col < old(self).width(),
        ensures
            final(self).width() == old(self).width(),
            final(self).height() == old(self).height(),
            final(self).at(row as int, col as int) == color,
            forall|r: int, c: int|
                0 <= r < old(self).height() && 0 <= c < old(self).width() && (r != row || c != col)
                    ==> #[trigger] final(self).at(r, c) == old(self).at(r, c),
    {
        proof {
            use_type_invariant(&*self);
            lemma_cell_index(self.width as int, self.height as int, row as int, col as int);
        }
        let index: usize = row * self.width + col;
        self.cells[index] = color;
        assert forall|r: int, c: int|
            0 <= r < old(self).height() && 0 <= c < old(self).width() && (r != row || c != col)
            implies #[trigger] self.at(r, c) == old(self).at(r, c) by {
            lemma_cell_index(self.width as int, self.height as int, r, c);
            if r * self.width + c == index {
                lemma_cell_index_unique(self.width as int, r, c, row as int, col as int);
            }
        }
    }
}

} // verus!
