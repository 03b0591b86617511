use vstd::prelude::*;

verus! {

/// Shape of a row-major 2-D buffer: `(rows, cols)`.
#[derive(Clone, Copy, Debug, PartialEq, Eq, Structural)]
pub struct Shape2(pub u32, pub u32);

impl Shape2 {
    /// Number of pixels covered by the shape, as a mathematical integer.
    pub open spec fn size(self) -> nat {
        self.0 as nat * self.1 as nat
    }

    /// Linear offset of `(i, j)` in a row-major buffer of this shape.
    pub open spec fn offset_of(self, i: int, j: int) -> int {
        i * self.1 + j
    }

    /// The shape's pixel count fits in `usize`.
    pub open spec fn fits(self) -> bool {
        self.size() <= usize::MAX
    }

    /// Rows / height
    pub fn rows(&self) -> (r: u32)
        ensures
            r == self.0,
    {
        self.0
    }

    /// Columns / width
    pub fn cols(&self) -> (r: u32)
        ensures
            r == self.1,
    {
        self.1
    }

    /// Number of pixels covered by the shape
    pub fn len(&self) -> (r: usize)
        requires
            self.fits(),
        ensures
            r == self.size(),
    {
        (self.0 as usize) * (self.1 as usize)
    }

    /// Linear offset of the pixel at row `i`, column `j`.
    pub fn offset(&self, coo: (u32, u32)) -> (r: usize)
        requires
            self.fits(),
            coo.0 < self.0,
            coo.1 < self.1,
        ensures
            r == self.offset_of(coo.0 as int, coo.1 as int),
            r < self.size(),
    {
        let (i, j) = coo;
        proof {
            lemma_offset_in_bounds(self.0 as int, self.1 as int, i as int, j as int);
        }
        (i as usize) * (self.1 as usize) + (j as usize)
    }
}

/// A row-major offset of an in-bounds coordinate is below `rows * cols`.
pub proof fn lemma_offset_in_bounds(rows: int, cols: int, i: int, j: int)
    requires
        0 <= i < rows,
        0 <= j < cols,
    ensures
        0 <= i * cols + j < rows * cols,
        i * cols + cols <= rows * cols,
{
    assert(i * cols + cols <= rows * cols) by (nonlinear_arith)
        requires
            0 <= i < rows,
            0 <= j < cols,
    ;
    assert(0 <= i * cols) by (nonlinear_arith)
        requires
            0 <= i,
            0 <= cols,
    ;
}

impl From<(u32, u32)> for Shape2 {
    fn from(rc: (u32, u32)) -> (r: Shape2)
        ensures
            r == Shape2(rc.0, rc.1),
    {
        Shape2(rc.0, rc.1)
    }
}

impl vstd::std_specs::convert::FromSpecImpl<(u32, u32)> for Shape2 {
    open spec fn obeys_from_spec() -> bool {
        true
    }

    open spec fn from_spec(rc: (u32, u32)) -> Shape2 {
        Shape2(rc.0, rc.1)
    }
}

} // verus!
