//! Rectangular grids addressed by `(x, y)` coordinates.

use vstd::prelude::*;

use crate::Pointer;

verus! {

pub trait Plane: Sized {
    type Item;

    spec fn width_spec(&self) -> nat;

    spec fn height_spec(&self) -> nat;

    /// The value at `(x, y)`; meaningful inside the bounds only.
    spec fn cell(&self, x: int, y: int) -> Self::Item;

    spec fn wf(&self) -> bool;

    /// The dimensions of a grid fit in a `usize`.
    proof fn lemma_dimensions_fit(&self)
        requires
            self.wf(),
        ensures
            self.width_spec() <= usize::MAX,
            self.height_spec() <= usize::MAX,
    ;

    fn width(&self) -> (r: usize)
        requires
            self.wf(),
        ensures
            r == self.width_spec(),
    ;

    fn height(&self) -> (r: usize)
        requires
            self.wf(),
        ensures
            r == self.height_spec(),
    ;

    /// The value at `pointer`, or `None` outside the bounds.
    fn get(&self, pointer: Pointer) -> (r: Option<&Self::Item>)
        requires
            self.wf(),
        ensures
            r is Some <==> in_bounds(self.width_spec(), self.height_spec(), pointer),
            r matches Some(item) ==> *item == self.cell(pointer.0 as int, pointer.1 as int),
    ;

    /// The value at `pointer` to change in place, or `None` outside the bounds.
    fn get_mut(&mut self, pointer: Pointer) -> (r: Option<&mut Self::Item>)
        requires
            old(self).wf(),
        ensures
            r is Some <==> in_bounds(old(self).width_spec(), old(self).height_spec(), pointer),
            r is None ==> *final(self) == *old(self),
            r matches Some(item) ==> *item == old(self).cell(pointer.0 as int, pointer.1 as int),
            r matches Some(item) ==> final(self).wf() && final(self).width_spec() == old(self).width_spec()
                && final(self).height_spec() == old(self).height_spec(),
            r matches Some(item) ==> forall|x: int, y: int|
                0 <= x < old(self).width_spec() && 0 <= y < old(self).height_spec() ==> #[trigger] final(self).cell(x, y)
                    == if x == pointer.0 && y == pointer.1 {
                    *final(item)
                } else {
                    old(self).cell(x, y)
                },
    ;
}

pub open spec fn in_bounds(width: nat, height: nat, pointer: Pointer) -> bool {
    pointer.0 < width && pointer.1 < height
}

/// The length of the longest row, zero when there are none.
pub open spec fn widest<T>(rows: Seq<Seq<T>>) -> nat
    decreases rows.len(),
{
    if rows.len() == 0 {
        0
    } else {
        let rest = widest(rows.drop_last());
        if rows.last().len() > rest {
            rows.last().len()
        } else {
            rest
        }
    }
}

pub proof fn lemma_widest_bounds<T>(rows: Seq<Seq<T>>)
    ensures
        forall|y: int| 0 <= y < rows.len() ==> (#[trigger] rows[y]).len() <= widest(rows),
        rows.len() == 0 ==> widest(rows) == 0,
    decreases rows.len(),
{
    if rows.len() > 0 {
        lemma_widest_bounds(rows.drop_last());
        assert forall|y: int| 0 <= y < rows.len() implies (#[trigger] rows[y]).len() <= widest(rows) by {
            if y < rows.len() - 1 {
                assert(rows[y] == rows.drop_last()[y]);
            }
        }
    }
}

/// The rows of a vector of vectors, as sequences.
pub open spec fn rows_view<T>(rows: Seq<Vec<T>>) -> Seq<Seq<T>> {
    rows.map_values(|row: Vec<T>| row@)
}

/// A growable grid. Every row holds `width` cells.
pub struct VecPlane<T> {
    width: usize,
    height: usize,
    rows: Vec<Vec<T>>,
}

impl<T> Plane for VecPlane<T> {
    type Item = T;

    closed spec fn width_spec(&self) -> nat {
        self.width as nat
    }

    closed spec fn height_spec(&self) -> nat {
        self.height as nat
    }

    closed spec fn cell(&self, x: int, y: int) -> T {
        self.rows@[y]@[x]
    }

    closed spec fn wf(&self) -> bool {
        &&& self.rows@.len() == self.height
        &&& forall|y: int| 0 <= y < self.height ==> (#[trigger] self.rows@[y])@.len() == self.width
    }

    proof fn lemma_dimensions_fit(&self) {
    }

    fn width(&self) -> (r: usize) {
        self.width
    }

    fn height(&self) -> (r: usize) {
        self.height
    }

    fn get(&self, pointer: Pointer) -> (r: Option<&T>) {
        if pointer.0 >= self.width || pointer.1 >= self.height {
            return None;
        }
        Some(&self.rows[pointer.1][pointer.0])
    }

    fn get_mut(&mut self, pointer: Pointer) -> (r: Option<&mut T>) {
        if pointer.0 >= self.width || pointer.1 >= self.height {
            return None;
        }
        let row = &mut self.rows[pointer.1];
        Some(&mut row[pointer.0])
    }
}

/// Appends `T::default()` to `row` until it holds `width` cells.
fn pad_row<T: Default>(row: &mut Vec<T>, width: usize)
    requires
        old(row)@.len() <= width,
    ensures
        final(row)@.len() == width,
        forall|x: int| 0 <= x < old(row)@.len() ==> #[trigger] final(row)@[x] == old(row)@[x],
        forall|x: int| old(row)@.len() <= x < width ==> call_ensures(T::default, (), #[trigger] final(row)@[x]),
{
    let ghost start = row@;
    while row.len() < width
        invariant
            start.len() <= row@.len() <= width,
            forall|x: int| 0 <= x < start.len() ==> #[trigger] row@[x] == start[x],
            forall|x: int| start.len() <= x < row@.len() ==> call_ensures(T::default, (), #[trigger] row@[x]),
        decreases width - row@.len(),
    {
        row.push(T::default());
    }
}

impl<T> VecPlane<T> {
    /// A `width` by `height` grid of default values.
    pub fn new(width: usize, height: usize) -> (r: Self)
        where
            T: Default,
        ensures
            r.wf(),
            r.width_spec() == width,
            r.height_spec() == height,
            forall|x: int, y: int| 0 <= x < width && 0 <= y < height ==> call_ensures(T::default, (), #[trigger] r.cell(x, y)),
    {
        let mut rows: Vec<Vec<T>> = Vec::new();
        while rows.len() < height
            invariant
                rows@.len() <= height,
                forall|y: int| 0 <= y < rows@.len() ==> (#[trigger] rows@[y])@.len() == width,
                forall|x: int, y: int| 0 <= x < width && 0 <= y < rows@.len() ==> call_ensures(T::default, (), #[trigger] rows@[y]@[x]),
            decreases height - rows@.len(),
        {
            let mut row: Vec<T> = Vec::new();
            pad_row(&mut row, width);
            rows.push(row);
        }
        VecPlane { width, height, rows }
    }

    /// A grid of the given rows, as wide as the longest; shorter rows are
    /// padded on the right with default values.
    pub fn from_rows(rows: Vec<Vec<T>>) -> (r: Self)
        where
            T: Default,
        ensures
            r.wf(),
            r.width_spec() == widest(rows_view(rows@)),
            r.height_spec() == rows@.len(),
            forall|x: int, y: int| 0 <= y < rows@.len() && 0 <= x < rows@[y]@.len() ==> #[trigger] r.cell(x, y) == rows@[y]@[x],
            forall|x: int, y: int| 0 <= y < rows@.len() && rows@[y]@.len() <= x < r.width_spec()
                ==> call_ensures(T::default, (), #[trigger] r.cell(x, y)),
    {
        let ghost view = rows_view(rows@);
        let mut width: usize = 0;
        let mut i: usize = 0;
        while i < rows.len()
            invariant
                i <= rows@.len(),
                view == rows_view(rows@),
                width == widest(view.subrange(0, i as int)),
            decreases rows@.len() - i,
        {
            proof {
                assert(view.subrange(0, i as int + 1).drop_last() =~= view.subrange(0, i as int));
            }
            if rows[i].len() > width {
                width = rows[i].len();
            }
            i += 1;
        }
        proof {
            assert(view.subrange(0, rows@.len() as int) =~= view);
            lemma_widest_bounds(view);
            assert forall|y: int| 0 <= y < rows@.len() implies (#[trigger] rows@[y])@.len() <= width by {
                assert(view[y] == rows@[y]@);
            }
        }
        let height = rows.len();
        let mut rest = rows;
        let mut reversed: Vec<Vec<T>> = Vec::new();
        while rest.len() > 0
            invariant
                rest@.len() + reversed@.len() == height,
                forall|y: int| 0 <= y < rest@.len() ==> #[trigger] rest@[y] == old_rows_at(rows@, y),
                forall|j: int| 0 <= j < reversed@.len() ==> #[trigger] reversed@[j] == old_rows_at(rows@, height - 1 - j),
            decreases rest@.len(),
        {
            let row = rest.pop().unwrap();
            reversed.push(row);
        }
        let mut padded: Vec<Vec<T>> = Vec::new();
        while reversed.len() > 0
            invariant
                reversed@.len() + padded@.len() == height,
                forall|j: int| 0 <= j < reversed@.len() ==> #[trigger] reversed@[j] == old_rows_at(rows@, height - 1 - j),
                forall|y: int| 0 <= y < padded@.len() ==> (#[trigger] padded@[y])@.len() == width,
                forall|x: int, y: int| 0 <= y < padded@.len() && 0 <= x < rows@[y]@.len() ==> #[trigger] padded@[y]@[x] == rows@[y]@[x],
                forall|x: int, y: int| 0 <= y < padded@.len() && rows@[y]@.len() <= x < width
                    ==> call_ensures(T::default, (), #[trigger] padded@[y]@[x]),
                forall|y: int| 0 <= y < rows@.len() ==> (#[trigger] rows@[y])@.len() <= width,
                rows@.len() == height,
            decreases reversed@.len(),
        {
            let mut row = reversed.pop().unwrap();
            pad_row(&mut row, width);
            padded.push(row);
        }
        VecPlane { width, height, rows: padded }
    }
}

impl<T: Copy> VecPlane<T> {
    /// A `width` by `height` grid holding `value` in every cell.
    pub fn filled(width: usize, height: usize, value: T) -> (r: Self)
        ensures
            r.wf(),
            r.width_spec() == width,
            r.height_spec() == height,
            forall|x: int, y: int| 0 <= x < width && 0 <= y < height ==> #[trigger] r.cell(x, y) == value,
    {
        let mut rows: Vec<Vec<T>> = Vec::new();
        while rows.len() < height
            invariant
                rows@.len() <= height,
                forall|y: int| 0 <= y < rows@.len() ==> (#[trigger] rows@[y])@.len() == width,
                forall|x: int, y: int| 0 <= x < width && 0 <= y < rows@.len() ==> #[trigger] rows@[y]@[x] == value,
            decreases height - rows@.len(),
        {
            let mut row: Vec<T> = Vec::new();
            while row.len() < width
                invariant
                    row@.len() <= width,
                    forall|x: int| 0 <= x < row@.len() ==> #[trigger] row@[x] == value,
                decreases width - row@.len(),
            {
                row.push(value);
            }
            rows.push(row);
        }
        VecPlane { width, height, rows }
    }
}

/// A grid whose size is fixed by its type: `WIDTH` by `HEIGHT` cells.
pub struct ArrayPlane<const WIDTH: usize, const HEIGHT: usize, T> {
    plane: VecPlane<T>,
}

impl<const WIDTH: usize, const HEIGHT: usize, T> Plane for ArrayPlane<WIDTH, HEIGHT, T> {
    type Item = T;

    open spec fn width_spec(&self) -> nat {
        WIDTH as nat
    }

    open spec fn height_spec(&self) -> nat {
        HEIGHT as nat
    }

    closed spec fn cell(&self, x: int, y: int) -> T {
        self.plane.cell(x, y)
    }

    closed spec fn wf(&self) -> bool {
        &&& self.plane.wf()
        &&& self.plane.width_spec() == WIDTH
        &&& self.plane.height_spec() == HEIGHT
    }

    proof fn lemma_dimensions_fit(&self) {
    }

    fn width(&self) -> (r: usize) {
        WIDTH
    }

    fn height(&self) -> (r: usize) {
        HEIGHT
    }

    fn get(&self, pointer: Pointer) -> (r: Option<&T>) {
        self.plane.get(pointer)
    }

    fn get_mut(&mut self, pointer: Pointer) -> (r: Option<&mut T>) {
        self.plane.get_mut(pointer)
    }
}

impl<const WIDTH: usize, const HEIGHT: usize, T> ArrayPlane<WIDTH, HEIGHT, T> {
    /// A grid of default values.
    pub fn new() -> (r: Self)
        where
            T: Default,
        ensures
            r.wf(),
            forall|x: int, y: int| 0 <= x < WIDTH && 0 <= y < HEIGHT ==> call_ensures(T::default, (), #[trigger] r.cell(x, y)),
    {
        ArrayPlane { plane: VecPlane::new(WIDTH, HEIGHT) }
    }

    /// A grid holding `value` in every cell.
    pub fn filled(value: T) -> (r: Self)
        where
            T: Copy,
        ensures
            r.wf(),
            forall|x: int, y: int| 0 <= x < WIDTH && 0 <= y < HEIGHT ==> #[trigger] r.cell(x, y) == value,
    {
        ArrayPlane { plane: VecPlane::filled(WIDTH, HEIGHT, value) }
    }
}

impl<const WIDTH: usize, const HEIGHT: usize, T: Default> Default for ArrayPlane<WIDTH, HEIGHT, T> {
    /// A grid of default values.
    fn default() -> (r: Self)
        ensures
            r.wf(),
            forall|x: int, y: int| 0 <= x < WIDTH && 0 <= y < HEIGHT ==> call_ensures(T::default, (), #[trigger] r.cell(x, y)),
    {
        Self::new()
    }
}

/// Row `y` of `rows`.
pub open spec fn old_rows_at<T>(rows: Seq<Vec<T>>, y: int) -> Vec<T> {
    rows[y]
}

} // verus!
