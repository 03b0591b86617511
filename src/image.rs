use vstd::prelude::*;
use crate::shape::Shape2;

verus! {

/// A 2-D row-major buffer of `T` with a fixed shape.
#[derive(Clone)]
pub struct Image<T> {
    shape: Shape2,
    buffer: Vec<T>,
}

impl<T> View for Image<T> {
    type V = Seq<T>;

    /// The pixels in row-major order.
    closed spec fn view(&self) -> Seq<T> {
        self.buffer@
    }
}

impl<T> Image<T> {
    /// The shape the image was built with.
    pub closed spec fn spec_shape(&self) -> Shape2 {
        self.shape
    }

    /// The buffer holds exactly one pixel per cell of the shape.
    pub open spec fn wf(&self) -> bool {
        &&& self@.len() == self.spec_shape().size()
        &&& self.spec_shape().fits()
    }

    /// The pixel at row `i`, column `j`.
    pub open spec fn at(&self, i: int, j: int) -> T {
        self@[self.spec_shape().offset_of(i, j)]
    }

    pub fn from_vec(shape: Shape2, buffer: Vec<T>) -> (r: Self)
        requires
            shape.fits(),
            buffer@.len() == shape.size(),
        ensures
            r.wf(),
            r.spec_shape() == shape,
            r@ == buffer@,
    {
        Image { shape, buffer }
    }

    /// Builds the image by evaluating `f((row, col))` for each pixel, row by row.
    pub fn from_fn<F: Fn((u32, u32)) -> T>(shape: Shape2, f: F) -> (r: Self)
        requires
            shape.fits(),
            forall|i: u32, j: u32| i < shape.0 && j < shape.1 ==> call_requires(f, ((i, j),)),
        ensures
            r.wf(),
            r.spec_shape() == shape,
            forall|i: u32, j: u32|
                i < shape.0 && j < shape.1 ==> call_ensures(f, ((i, j),), #[trigger] r.at(i as int, j as int)),
    {
        let mut buffer: Vec<T> = Vec::with_capacity(shape.len());
        let rows = shape.rows();
        let cols = shape.cols();
        let mut i: u32 = 0;
        while i < rows
            invariant
                shape.fits(),
                rows == shape.0,
                cols == shape.1,
                i <= rows,
                buffer@.len() == i * cols,
                forall|i: u32, j: u32| i < shape.0 && j < shape.1 ==> call_requires(f, ((i, j),)),
                forall|a: u32, b: u32|
                    a < i && b < cols ==> call_ensures(f, ((a, b),), #[trigger] buffer@[a * cols + b]),
            decreases rows - i,
        {
            let mut j: u32 = 0;
            while j < cols
                invariant
                    shape.fits(),
                    rows == shape.0,
                    cols == shape.1,
                    i < rows,
                    j <= cols,
                    buffer@.len() == i * cols + j,
                    forall|i: u32, j: u32| i < shape.0 && j < shape.1 ==> call_requires(f, ((i, j),)),
                    forall|a: u32, b: u32|
                        a < i && b < cols ==> call_ensures(f, ((a, b),), #[trigger] buffer@[a * cols + b]),
                    forall|b: u32| b < j ==> call_ensures(f, ((i, b),), #[trigger] buffer@[i * cols + b]),
                decreases cols - j,
            {
                proof {
                    crate::shape::lemma_offset_in_bounds(rows as int, cols as int, i as int, j as int);
                }
                let v = f((i, j));
                let ghost prev = buffer@;
                buffer.push(v);
                proof {
                    assert forall|a: u32, b: u32| a < i && b < cols implies call_ensures(
                        f,
                        ((a, b),),
                        #[trigger] buffer@[a * cols + b],
                    ) by {
                        crate::shape::lemma_offset_in_bounds(i as int, cols as int, a as int, b as int);
                        assert(buffer@[a * cols + b] == prev[a * cols + b]);
                    }
                }
                j = j + 1;
            }
            proof {
                assert(buffer@.len() == (i + 1) * cols) by (nonlinear_arith)
                    requires buffer@.len() == i * cols + cols;
                assert forall|a: u32, b: u32| a < i + 1 && b < cols implies call_ensures(
                    f,
                    ((a, b),),
                    #[trigger] buffer@[a * cols + b],
                ) by {
                    crate::shape::lemma_offset_in_bounds((i + 1) as int, cols as int, a as int, b as int);
                    if a == i {
                        assert(call_ensures(f, ((i, b),), buffer@[i * cols + b]));
                    }
                }
            }
            i = i + 1;
        }
        proof {
            assert(buffer@.len() == shape.size()) by (nonlinear_arith)
                requires buffer@.len() == i * cols, i == rows, rows == shape.0, cols == shape.1;
        }
        Image { shape, buffer }
    }

    /// An image of the given shape with every pixel set to `value`.
    pub fn from_value(shape: Shape2, value: T) -> (r: Self)
        where T: Copy,
        requires
            shape.fits(),
        ensures
            r.wf(),
            r.spec_shape() == shape,
            r@ == Seq::new(shape.size(), |k: int| value),
    {
        let n = shape.len();
        let mut buffer: Vec<T> = Vec::with_capacity(n);
        let mut k: usize = 0;
        while k < n
            invariant
                n == shape.size(),
                k <= n,
                buffer@ == Seq::new(k as nat, |x: int| value),
            decreases n - k,
        {
            buffer.push(value);
            k = k + 1;
            assert(buffer@ =~= Seq::new(k as nat, |x: int| value));
        }
        Image { shape, buffer }
    }

    pub fn shape(&self) -> (r: Shape2)
        ensures
            r == self.spec_shape(),
    {
        self.shape
    }

    pub fn cols(&self) -> (r: u32)
        ensures
            r == self.spec_shape().1,
    {
        self.shape.cols()
    }

    pub fn rows(&self) -> (r: u32)
        ensures
            r == self.spec_shape().0,
    {
        self.shape.rows()
    }

    pub fn offset(&self, coo: (u32, u32)) -> (r: usize)
        requires
            self.wf(),
            coo.0 < self.spec_shape().0,
            coo.1 < self.spec_shape().1,
        ensures
            r == self.spec_shape().offset_of(coo.0 as int, coo.1 as int),
            r < self@.len(),
    {
        self.shape.offset(coo)
    }

    pub fn as_slice(&self) -> (r: &[T])
        ensures
            r@ == self@,
    {
        self.buffer.as_slice()
    }

    /// Mutable access to the pixels; the length of the slice cannot change, so
    /// the image stays well formed.
    pub fn as_slice_mut(&mut self) -> (r: &mut [T])
        ensures
            r@ == old(self)@,
            final(self)@ == final(r)@,
            final(self).spec_shape() == old(self).spec_shape(),
    {
        self.buffer.as_mut_slice()
    }

    /// The pixel at `(row, col)`.
    pub fn get(&self, coo: (u32, u32)) -> (r: &T)
        requires
            self.wf(),
            coo.0 < self.spec_shape().0,
            coo.1 < self.spec_shape().1,
        ensures
            *r == self.at(coo.0 as int, coo.1 as int),
    {
        let k = self.offset(coo);
        &self.buffer[k]
    }

    /// Replaces the pixel at `(row, col)` with `v`.
    pub fn set(&mut self, coo: (u32, u32), v: T)
        requires
            old(self).wf(),
            coo.0 < old(self).spec_shape().0,
            coo.1 < old(self).spec_shape().1,
        ensures
            final(self).wf(),
            final(self).spec_shape() == old(self).spec_shape(),
            final(self)@ == old(self)@.update(
                old(self).spec_shape().offset_of(coo.0 as int, coo.1 as int),
                v,
            ),
    {
        let k = self.offset(coo);
        self.buffer.set(k, v);
    }

    /// Replaces the pixel at linear offset `k` with `v`.
    pub fn set_at(&mut self, k: usize, v: T)
        requires
            old(self).wf(),
            k < old(self)@.len(),
        ensures
            final(self).wf(),
            final(self).spec_shape() == old(self).spec_shape(),
            final(self)@ == old(self)@.update(k as int, v),
    {
        self.buffer.set(k, v);
    }

    /// Replaces every pixel `v` by `f(v)`.
    pub fn apply<F: Fn(T) -> T>(&mut self, f: F)
        where T: Copy,
        requires
            old(self).wf(),
            forall|v: T| call_requires(f, (v,)),
        ensures
            final(self).wf(),
            final(self).spec_shape() == old(self).spec_shape(),
            final(self)@.len() == old(self)@.len(),
            forall|k: int|
                0 <= k < old(self)@.len() ==> call_ensures(f, (old(self)@[k],), #[trigger] final(self)@[k]),
    {
        let n = self.buffer.len();
        let mut k: usize = 0;
        while k < n
            invariant
                self.wf(),
                self.spec_shape() == old(self).spec_shape(),
                n == self@.len(),
                n == old(self)@.len(),
                k <= n,
                forall|v: T| call_requires(f, (v,)),
                forall|x: int| 0 <= x < k ==> call_ensures(f, (old(self)@[x],), #[trigger] self@[x]),
                forall|x: int| k <= x < n ==> self@[x] == old(self)@[x],
            decreases n - k,
        {
            let v = f(self.buffer[k]);
            self.buffer.set(k, v);
            k = k + 1;
        }
    }
}

} // verus!
