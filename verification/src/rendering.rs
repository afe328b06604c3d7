//! The window that a renderer draws into: a box of bounds and a grid of cells.

use std::cmp::Ordering;
use std::ops::Index;
use vstd::prelude::*;
use vstd::std_specs::cmp::PartialOrdSpec;

verus! {

/// A box in `N` dimensions, given by its lowest and its highest corner.
pub struct BoundingBox<const N: usize, T> {
    low: [T; N],
    high: [T; N],
}

/// `value` lies in the half-open range from `low` up to but not including
/// `high`, by the order of `T`.
pub open spec fn in_range<T: PartialOrd>(low: T, value: T, high: T) -> bool {
    &&& low.partial_cmp_spec(&value) matches Some(Ordering::Less | Ordering::Equal)
    &&& value.partial_cmp_spec(&high) == Some(Ordering::Less)
}

impl<const N: usize, T> BoundingBox<N, T> {
    /// The lowest corner, one coordinate for each axis.
    pub closed spec fn low(&self) -> Seq<T> {
        self.low@
    }

    /// The highest corner, one coordinate for each axis.
    pub closed spec fn high(&self) -> Seq<T> {
        self.high@
    }

    /// The box between the corners `low` and `high`.
    pub fn new(low: [T; N], high: [T; N]) -> (bounds: Self)
        ensures
            bounds.low() == low@,
            bounds.high() == high@,
    {
        Self { low, high }
    }

    /// Whether `point` lies in the box: on every axis its coordinate is at
    /// least the low corner's and less than the high corner's.
    pub fn surrounds(&self, point: [T; N]) -> (inside: bool) where T: Copy + PartialOrd
        ensures
            T::obeys_partial_cmp_spec() ==> (inside <==> forall|axis: int|
                0 <= axis < N ==> in_range(
                    self.low()[axis],
                    #[trigger] point@[axis],
                    self.high()[axis],
                )),
    {
        for axis in 0..N
            invariant
                T::obeys_partial_cmp_spec() ==> forall|seen: int|
                    0 <= seen < axis ==> in_range(
                        self.low@[seen],
                        #[trigger] point@[seen],
                        self.high@[seen],
                    ),
        {
            if !(self.low[axis] <= point[axis] && point[axis] < self.high[axis]) {
                return false;
            }
        }
        true
    }
}

impl<const N: usize, T: Default + Copy> Default for BoundingBox<N, T> {
    /// The box whose corners both hold the default value of `T` on every axis.
    fn default() -> (bounds: Self)
        ensures
            forall|axis: int|
                0 <= axis < N ==> call_ensures(T::default, (), #[trigger] bounds.low()[axis]),
            forall|axis: int|
                0 <= axis < N ==> call_ensures(T::default, (), #[trigger] bounds.high()[axis]),
    {
        Self { low: [T::default();N], high: [T::default();N] }
    }
}

/// The number of cells of a grid with the extents `size`: their product.
pub open spec fn cell_count(size: Seq<usize>) -> nat
    decreases size.len(),
{
    if size.len() == 0 {
        1
    } else {
        cell_count(size.drop_last()) * size.last() as nat
    }
}

/// The place of the cell `indices` in a grid with the extents `size`, the
/// cells laid out with the first axis running fastest: each index counts as
/// many cells as the axes before it hold together.
pub open spec fn linear_index(indices: Seq<usize>, size: Seq<usize>) -> nat
    decreases indices.len(),
{
    if indices.len() == 0 {
        0
    } else {
        linear_index(indices.drop_last(), size.drop_last()) + indices.last() as nat * cell_count(
            size.drop_last(),
        )
    }
}

/// The grid can be counted in a `usize`: the extents of any number of leading
/// axes have a product that fits.
pub open spec fn countable(size: Seq<usize>) -> bool {
    forall|axes: int|
        0 <= axes <= size.len() ==> #[trigger] cell_count(size.take(axes)) <= usize::MAX
}

/// Every index is below the extent of its axis.
pub open spec fn in_grid(indices: Seq<usize>, size: Seq<usize>) -> bool {
    forall|axis: int| 0 <= axis < size.len() ==> #[trigger] indices[axis] < size[axis]
}

/// The place of a cell grows with every axis that is taken into account.
pub proof fn lemma_linear_index_grows(indices: Seq<usize>, size: Seq<usize>, axes: int)
    requires
        indices.len() == size.len(),
        0 <= axes <= size.len(),
    ensures
        linear_index(indices.take(axes), size.take(axes)) <= linear_index(indices, size),
    decreases size.len() - axes,
{
    if axes == size.len() {
        assert(indices.take(axes) =~= indices);
        assert(size.take(axes) =~= size);
    } else {
        lemma_linear_index_grows(indices, size, axes + 1);
        assert(indices.take(axes + 1).drop_last() =~= indices.take(axes));
        assert(size.take(axes + 1).drop_last() =~= size.take(axes));
    }
}

/// A cell whose indices are all below the extents has its place among the
/// cells of the grid.
pub proof fn lemma_in_grid_is_a_cell(indices: Seq<usize>, size: Seq<usize>)
    requires
        indices.len() == size.len(),
        in_grid(indices, size),
    ensures
        linear_index(indices, size) < cell_count(size),
    decreases size.len(),
{
    if size.len() > 0 {
        let front = size.drop_last();
        assert(in_grid(indices.drop_last(), front)) by {
            assert forall|axis: int| 0 <= axis < front.len() implies (
            #[trigger] indices.drop_last()[axis]) < front[axis] by {
                assert(indices[axis] < size[axis]);
            }
        }
        lemma_in_grid_is_a_cell(indices.drop_last(), front);
        let below = linear_index(indices.drop_last(), front);
        let stride = cell_count(front);
        let index = indices.last() as nat;
        let extent = size.last() as nat;
        assert(indices[size.len() - 1] < size[size.len() - 1]);
        assert(below + index * stride < stride * extent) by (nonlinear_arith)
            requires
                below < stride,
                index < extent,
        ;
    }
}

/// A grid whose extents are all 0 can be counted: it has no cell, or the one
/// cell of a grid without axes.
pub proof fn lemma_no_extent_is_countable(size: Seq<usize>)
    requires
        forall|axis: int| 0 <= axis < size.len() ==> #[trigger] size[axis] == 0,
    ensures
        countable(size),
        cell_count(size) == (if size.len() == 0 {
            1nat
        } else {
            0nat
        }),
{
    assert forall|axes: int| 0 <= axes <= size.len() implies #[trigger] cell_count(
        size.take(axes),
    ) <= 1 by {
        let part = size.take(axes);
        if axes > 0 {
            assert(part.last() == size[axes - 1]);
            assert(cell_count(part) == cell_count(part.drop_last()) * 0);
        }
    }
    if size.len() > 0 {
        assert(size.last() == size[size.len() - 1]);
        assert(cell_count(size) == cell_count(size.drop_last()) * 0);
    }
}

/// A grid of cells in `N` dimensions, stored in one row.
pub struct Buffer<const N: usize, T> {
    data: Vec<T>,
    size: [usize; N],
}

impl<const N: usize, T> Buffer<N, T> {
    #[verifier::type_invariant]
    spec fn well_formed(&self) -> bool {
        &&& countable(self.size@)
        &&& self.data@.len() == cell_count(self.size@)
    }

    /// The extent of the grid along each axis.
    pub closed spec fn size(&self) -> Seq<usize> {
        self.size@
    }

    /// The cells, in the order of their places.
    pub closed spec fn cells(&self) -> Seq<T> {
        self.data@
    }

    /// A grid with the extents `size`, every cell holding the default value
    /// of `T`.
    pub fn new(size: [usize; N]) -> (buffer: Self) where T: Default + Copy
        requires
            countable(size@),
        ensures
            buffer.size() == size@,
            buffer.cells().len() == cell_count(size@),
            forall|place: int|
                0 <= place < buffer.cells().len() ==> call_ensures(
                    T::default,
                    (),
                    #[trigger] buffer.cells()[place],
                ),
    {
        let mut count: usize = 1;
        for axis in 0..N
            invariant
                countable(size@),
                count == cell_count(size@.take(axis as int)),
        {
            proof {
                assert(size@.take(axis + 1).drop_last() =~= size@.take(axis as int));
                assert(cell_count(size@.take(axis + 1)) <= usize::MAX);
            }
            count = count * size[axis];
        }
        assert(size@.take(N as int) =~= size@);
        let fill = T::default();
        let mut data: Vec<T> = Vec::new();
        for place in 0..count
            invariant
                data@.len() == place,
                forall|seen: int| 0 <= seen < place ==> #[trigger] data@[seen] == fill,
        {
            data.push(fill);
        }
        Self { data, size }
    }

    /// The place of the cell `indices` in the row of cells.
    pub fn linearize(&self, indices: [usize; N]) -> (place: usize)
        requires
            linear_index(indices@, self.size()) <= usize::MAX,
        ensures
            place == linear_index(indices@, self.size()),
    {
        proof {
            use_type_invariant(self);
        }
        let mut index: usize = 0;
        let mut stride: usize = 1;
        for axis in 0..N
            invariant
                countable(self.size@),
                linear_index(indices@, self.size@) <= usize::MAX,
                index == linear_index(indices@.take(axis as int), self.size@.take(axis as int)),
                stride == cell_count(self.size@.take(axis as int)),
        {
            proof {
                assert(indices@.take(axis + 1).drop_last() =~= indices@.take(axis as int));
                assert(self.size@.take(axis + 1).drop_last() =~= self.size@.take(axis as int));
                assert(cell_count(self.size@.take(axis + 1)) <= usize::MAX);
                lemma_linear_index_grows(indices@, self.size@, axis + 1);
                assert(indices@[axis as int] * stride >= 0) by (nonlinear_arith);
            }
            index = index + indices[axis] * stride;
            stride = stride * self.size[axis];
        }
        proof {
            assert(indices@.take(N as int) =~= indices@);
            assert(self.size@.take(N as int) =~= self.size@);
        }
        index
    }

    /// Whether `indices` name a cell of the grid: every index is below the
    /// extent of its axis.
    pub fn surrounds(&self, indices: [usize; N]) -> (within: bool)
        ensures
            within == in_grid(indices@, self.size()),
    {
        for axis in 0..N
            invariant
                forall|seen: int| 0 <= seen < axis ==> #[trigger] indices@[seen] < self.size@[seen],
        {
            if indices[axis] >= self.size[axis] {
                return false;
            }
        }
        true
    }

    /// The cell at the place `place`, for writing. The other cells and the
    /// extents stay as they are.
    pub fn cell_mut(&mut self, place: usize) -> (cell: &mut T)
        requires
            place < old(self).cells().len(),
        ensures
            *cell == old(self).cells()[place as int],
            final(self).size() == old(self).size(),
            final(self).cells() == old(self).cells().update(place as int, *final(cell)),
    {
        proof {
            use_type_invariant(&*self);
        }
        &mut self.data[place]
    }

    /// The cell that `indices` name, for writing. The other cells and the
    /// extents stay as they are.
    pub fn at_mut(&mut self, indices: [usize; N]) -> (cell: &mut T)
        requires
            in_grid(indices@, old(self).size()),
        ensures
            *cell == old(self).cells()[linear_index(indices@, old(self).size()) as int],
            final(self).size() == old(self).size(),
            final(self).cells() == old(self).cells().update(
                linear_index(indices@, old(self).size()) as int,
                *final(cell),
            ),
    {
        proof {
            use_type_invariant(&*self);
            lemma_in_grid_is_a_cell(indices@, self.size());
            assert(linear_index(indices@, self.size()) < self.data.len());
        }
        let place = self.linearize(indices);
        &mut self.data[place]
    }
}

impl<const N: usize, T> vstd::std_specs::core::IndexSpecImpl<usize> for Buffer<N, T> {
    /// A place can be read when it is the place of a cell.
    open spec fn index_req(&self, index: &usize) -> bool {
        *index < self.cells().len()
    }
}

impl<const N: usize, T> Index<usize> for Buffer<N, T> {
    type Output = T;

    /// The cell at the place `index`.
    fn index(&self, index: usize) -> (cell: &T)
        ensures
            *cell == self.cells()[index as int],
    {
        &self.data[index]
    }
}

impl<const N: usize, T> vstd::std_specs::core::IndexSpecImpl<[usize; N]> for Buffer<N, T> {
    /// Indices can be read when they name a cell of the grid.
    open spec fn index_req(&self, index: &[usize; N]) -> bool {
        in_grid(index@, self.size())
    }
}

impl<const N: usize, T> Index<[usize; N]> for Buffer<N, T> {
    type Output = T;

    /// The cell that `index` names.
    fn index(&self, index: [usize; N]) -> (cell: &T)
        ensures
            *cell == self.cells()[linear_index(index@, self.size()) as int],
    {
        proof {
            use_type_invariant(self);
            lemma_in_grid_is_a_cell(index@, self.size());
            assert(linear_index(index@, self.size()) < self.data.len());
        }
        &self.data[self.linearize(index)]
    }
}

impl<const N: usize, T: Default + Copy> Default for Buffer<N, T> {
    /// The grid whose extents are all 0.
    fn default() -> (buffer: Self)
        ensures
            buffer.size() == Seq::new(N as nat, |axis: int| 0usize),
            buffer.cells().len() == cell_count(buffer.size()),
            forall|place: int|
                0 <= place < buffer.cells().len() ==> call_ensures(
                    T::default,
                    (),
                    #[trigger] buffer.cells()[place],
                ),
    {
        let size: [usize; N] = [0;N];
        proof {
            lemma_no_extent_is_countable(size@);
        }
        let buffer = Buffer::new(size);
        assert(buffer.size() =~= Seq::new(N as nat, |axis: int| 0usize));
        buffer
    }
}

/// The part of the screen that the editor draws into.
pub struct ScreenWindow {
    pub bounds: BoundingBox<2, usize>,
    pub write_buffer: Buffer<2, char>,
}

impl ScreenWindow {
    /// The window is empty: its bounds enclose no point and its grid has no
    /// cell.
    pub open spec fn blank(&self) -> bool {
        &&& self.bounds.low() == seq![0usize, 0usize]
        &&& self.bounds.high() == seq![0usize, 0usize]
        &&& self.write_buffer.size() == seq![0usize, 0usize]
        &&& self.write_buffer.cells() == Seq::<char>::empty()
    }
}

impl Default for ScreenWindow {
    /// The empty window.
    fn default() -> (window: Self)
        ensures
            window.blank(),
    {
        let window = ScreenWindow { bounds: Default::default(), write_buffer: Default::default() };
        proof {
            lemma_no_extent_is_countable(window.write_buffer.size());
            assert(window.write_buffer.size() =~= seq![0usize, 0usize]);
            assert(window.write_buffer.cells() =~= Seq::<char>::empty());
            assert(window.bounds.low() =~= seq![0usize, 0usize]);
            assert(window.bounds.high() =~= seq![0usize, 0usize]);
        }
        window
    }
}

} // verus!
