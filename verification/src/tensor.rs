//! Storage for an n-dimensional array: a flat buffer with a shape, laid out
//! in row-major order, whatever the elements are.

use vstd::prelude::*;
use vstd::string::StringExecFns;

verus! {

/// The number of elements of an array with the dimensions `dims`: their
/// product, and 1 for no dimension at all.
pub open spec fn product(dims: Seq<usize>) -> nat
    decreases dims.len(),
{
    if dims.len() == 0 {
        1
    } else {
        product(dims.drop_last()) * (dims.last() as nat)
    }
}

/// Whether `indices` names an element of an array of shape `shape`: one
/// index for each dimension, each below its dimension.
pub open spec fn in_bounds(shape: Seq<usize>, indices: Seq<usize>) -> bool {
    &&& indices.len() == shape.len()
    &&& forall|k: int| 0 <= k < shape.len() ==> indices[k] < shape[k]
}

/// Where the element that `indices` names stands in the flat buffer, in
/// row-major order: the last index moves fastest.
pub open spec fn offset(shape: Seq<usize>, indices: Seq<usize>) -> nat
    decreases shape.len(),
{
    if shape.len() == 0 || indices.len() == 0 {
        0
    } else {
        offset(shape.drop_last(), indices.drop_last()) * (shape.last() as nat) + (
        indices.last() as nat)
    }
}

/// Where no dimension is 0, the product of the first `k` dimensions is at
/// least 1 and at most the product of all.
pub proof fn lemma_product_prefix(dims: Seq<usize>, k: int)
    requires
        0 <= k <= dims.len(),
        forall|j: int| 0 <= j < dims.len() ==> dims[j] >= 1,
    ensures
        1 <= product(dims.take(k)) <= product(dims),
    decreases dims.len() - k,
{
    lemma_product_positive(dims.take(k));
    if k == dims.len() {
        assert(dims.take(k) =~= dims);
    } else {
        lemma_product_prefix(dims, k + 1);
        assert(dims.take(k + 1).drop_last() =~= dims.take(k));
        let p = product(dims.take(k));
        let d = dims[k] as nat;
        assert(p <= p * d) by (nonlinear_arith)
            requires
                d >= 1,
        ;
    }
}

/// Where no dimension is 0, the product is at least 1.
pub proof fn lemma_product_positive(dims: Seq<usize>)
    requires
        forall|j: int| 0 <= j < dims.len() ==> dims[j] >= 1,
    ensures
        product(dims) >= 1,
    decreases dims.len(),
{
    if dims.len() > 0 {
        lemma_product_positive(dims.drop_last());
        let p = product(dims.drop_last());
        let d = dims.last() as nat;
        assert(p * d >= 1) by (nonlinear_arith)
            requires
                p >= 1,
                d >= 1,
        ;
    }
}

/// Where a dimension is 0, the product is 0.
pub proof fn lemma_product_zero(dims: Seq<usize>, k: int)
    requires
        0 <= k < dims.len(),
        dims[k] == 0,
    ensures
        product(dims) == 0,
    decreases dims.len(),
{
    if k < dims.len() - 1 {
        lemma_product_zero(dims.drop_last(), k);
        let d = dims.last() as nat;
        assert(0 * d == 0) by (nonlinear_arith);
    } else {
        let p = product(dims.drop_last());
        assert(p * 0 == 0) by (nonlinear_arith);
    }
}

/// An element that the indices name stands inside the buffer.
pub proof fn lemma_offset_in_buffer(shape: Seq<usize>, indices: Seq<usize>)
    requires
        in_bounds(shape, indices),
    ensures
        offset(shape, indices) < product(shape),
    decreases shape.len(),
{
    if shape.len() > 0 {
        lemma_offset_in_buffer(shape.drop_last(), indices.drop_last());
        let o = offset(shape.drop_last(), indices.drop_last());
        let p = product(shape.drop_last());
        let d = shape.last() as nat;
        let i = indices.last() as nat;
        assert(o * d + i < p * d) by (nonlinear_arith)
            requires
                o < p,
                i < d,
        ;
    }
}

/// Where the element in row `row` and column `column` stands in a buffer
/// whose rows are `width` long.
pub open spec fn flat(row: int, column: int, width: int) -> int {
    row * width + column
}

/// A cell of a matrix of `height` rows and `width` columns stands inside a
/// buffer of `height * width` elements.
pub proof fn lemma_flat_in_buffer(row: int, column: int, height: int, width: int)
    requires
        0 <= row < height,
        0 <= column < width,
    ensures
        0 <= flat(row, column, width) < height * width,
        flat(row, column, width) < (row + 1) * width <= height * width,
{
    assert(0 <= row * width && (row + 1) * width <= height * width && (row + 1) * width == row
        * width + width) by (nonlinear_arith)
        requires
            0 <= row < height,
            0 < width,
    ;
}

/// A matrix of `rows` rows and `columns` columns has `rows * columns`
/// elements.
pub proof fn lemma_matrix(rows: usize, columns: usize)
    ensures
        product(seq![rows, columns]) == rows * columns,
{
    let shape = seq![rows, columns];
    assert(shape.drop_last() =~= seq![rows]);
    assert(seq![rows].drop_last() =~= Seq::<usize>::empty());
    assert(product(Seq::<usize>::empty()) == 1);
    assert(product(seq![rows]) == product(Seq::<usize>::empty()) * (rows as nat));
    assert(1 * (rows as nat) == rows) by (nonlinear_arith);
}

/// In a matrix, the element in row `i` and column `j` stands where `flat`
/// says.
pub proof fn lemma_matrix_cell(rows: usize, columns: usize, i: usize, j: usize)
    ensures
        offset(seq![rows, columns], seq![i, j]) == flat(i as int, j as int, columns as int),
{
    let shape = seq![rows, columns];
    let indices = seq![i, j];
    assert(shape.drop_last() =~= seq![rows]);
    assert(indices.drop_last() =~= seq![i]);
    assert(seq![rows].drop_last() =~= Seq::<usize>::empty());
    assert(seq![i].drop_last() =~= Seq::<usize>::empty());
    assert(offset(Seq::<usize>::empty(), Seq::<usize>::empty()) == 0);
    assert(offset(seq![rows], seq![i]) == offset(Seq::<usize>::empty(), Seq::<usize>::empty())
        * (rows as nat) + (i as nat));
    assert(0 * (rows as nat) == 0) by (nonlinear_arith);
}

/// The number of elements of an array of shape `shape`, if that number fits
/// the machine's word.
pub fn element_count(shape: &Vec<usize>) -> (count: Option<usize>)
    ensures
        match count {
            Some(n) => n == product(shape@),
            None => product(shape@) > usize::MAX,
        },
{
    let mut k: usize = 0;
    while k < shape.len()
        invariant
            k <= shape.len(),
            forall|j: int| 0 <= j < k ==> shape@[j] >= 1,
        decreases shape.len() - k,
    {
        if shape[k] == 0 {
            proof {
                lemma_product_zero(shape@, k as int);
            }
            return Some(0);
        }
        k += 1;
    }
    let mut count: usize = 1;
    let mut k: usize = 0;
    assert(shape@.take(0) =~= Seq::<usize>::empty());
    while k < shape.len()
        invariant
            k <= shape.len(),
            forall|j: int| 0 <= j < shape.len() ==> shape@[j] >= 1,
            count == product(shape@.take(k as int)),
        decreases shape.len() - k,
    {
        let dim = shape[k];
        proof {
            lemma_product_prefix(shape@, k + 1);
            assert(shape@.take(k + 1).drop_last() =~= shape@.take(k as int));
        }
        if count > usize::MAX / dim {
            assert(count * dim > usize::MAX) by (nonlinear_arith)
                requires
                    count > usize::MAX / dim,
                    dim >= 1,
            ;
            return None;
        }
        assert(count * dim <= usize::MAX) by (nonlinear_arith)
            requires
                count <= usize::MAX / dim,
                dim >= 1,
        ;
        count = count * dim;
        k += 1;
    }
    assert(shape@.take(k as int) =~= shape@);
    Some(count)
}

/// Whether `result` is what is left when `step` has taken the elements of
/// `xs` one after the other, from the first to the last, into a running
/// value that began as `zero`.
pub open spec fn reduced<T, F: Fn(T, T) -> T>(step: F, zero: T, xs: Seq<T>, result: T) -> bool
    decreases xs.len(),
{
    if xs.len() == 0 {
        result == zero
    } else {
        exists|before: T|
            reduced(step, zero, xs.drop_last(), before) && #[trigger] call_ensures(
                step,
                (before, xs.last()),
                result,
            )
    }
}

/// Whether `result` is what is left when `step` has taken the pairs of
/// `xs` and `ys` one after the other, from the first to the last, into a
/// running value that began as `zero`.
pub open spec fn folded<T, F: Fn(T, T, T) -> T>(
    step: F,
    zero: T,
    xs: Seq<T>,
    ys: Seq<T>,
    result: T,
) -> bool
    decreases xs.len(),
{
    if xs.len() == 0 || ys.len() == 0 {
        result == zero
    } else {
        exists|before: T|
            folded(step, zero, xs.drop_last(), ys.drop_last(), before) && #[trigger] call_ensures(
                step,
                (before, xs.last(), ys.last()),
                result,
            )
    }
}

/// Takes the pairs of `xs` and `ys` one after the other into a running
/// value that begins as `zero`, and returns what is left.
pub fn fold_pairs<T: Copy, F: Fn(T, T, T) -> T>(xs: &Vec<T>, ys: &Vec<T>, zero: T, step: &F) -> (result: T)
    requires
        xs@.len() == ys@.len(),
        forall|acc: T, x: T, y: T| call_requires(*step, (acc, x, y)),
    ensures
        folded(*step, zero, xs@, ys@, result),
{
    let mut result = zero;
    let mut k: usize = 0;
    assert(xs@.take(0).len() == 0);
    while k < xs.len()
        invariant
            k <= xs@.len(),
            xs@.len() == ys@.len(),
            forall|acc: T, x: T, y: T| call_requires(*step, (acc, x, y)),
            folded(*step, zero, xs@.take(k as int), ys@.take(k as int), result),
        decreases xs.len() - k,
    {
        let ghost before = result;
        result = step(result, xs[k], ys[k]);
        k += 1;
        proof {
            let a = xs@.take(k as int);
            let b = ys@.take(k as int);
            assert(a.drop_last() =~= xs@.take(k - 1));
            assert(b.drop_last() =~= ys@.take(k - 1));
            assert(a.last() == xs@[k - 1]);
            assert(b.last() == ys@[k - 1]);
            assert(folded(*step, zero, a.drop_last(), b.drop_last(), before));
            assert(call_ensures(*step, (before, a.last(), b.last()), result));
        }
    }
    proof {
        assert(xs@.take(k as int) =~= xs@);
        assert(ys@.take(k as int) =~= ys@);
    }
    result
}

/// A copy of `shape`.
fn copy_of(shape: &Vec<usize>) -> (copy: Vec<usize>)
    ensures
        copy@ == shape@,
{
    let mut copy: Vec<usize> = Vec::new();
    let mut i: usize = 0;
    while i < shape.len()
        invariant
            i <= shape.len(),
            copy@ == shape@.take(i as int),
        decreases shape.len() - i,
    {
        copy.push(shape[i]);
        i += 1;
        assert(shape@.take(i as int) =~= shape@.take(i - 1).push(shape@[i - 1]));
    }
    assert(shape@.take(i as int) =~= shape@);
    copy
}

/// An n-dimensional array of elements of type `T`.
#[derive(Debug)]
pub struct Tensor<T> {
    data: Vec<T>,
    shape: Vec<usize>,
}

impl<T> Tensor<T> {
    /// The elements, in row-major order.
    pub closed spec fn data(&self) -> Seq<T> {
        self.data@
    }

    /// The dimensions.
    pub closed spec fn shape(&self) -> Seq<usize> {
        self.shape@
    }

    /// The buffer holds as many elements as the shape asks for.
    pub open spec fn well_formed(&self) -> bool {
        self.data().len() == product(self.shape())
    }

    /// Row `i` of a matrix, from its first column to its last.
    pub open spec fn row_of(&self, i: int) -> Seq<T> {
        Seq::new(
            self.shape()[1] as nat,
            |k: int| self.data()[flat(i, k, self.shape()[1] as int)],
        )
    }

    /// Column `j` of a matrix, from its first row to its last.
    pub open spec fn column_of(&self, j: int) -> Seq<T> {
        Seq::new(
            self.shape()[0] as nat,
            |k: int| self.data()[flat(k, j, self.shape()[1] as int)],
        )
    }

    /// The tensor of shape `shape` whose elements are `data`, in row-major
    /// order.
    pub fn new(data: Vec<T>, shape: Vec<usize>) -> (tensor: Tensor<T>)
        requires
            data@.len() == product(shape@),
        ensures
            tensor.well_formed(),
            tensor.data() == data@,
            tensor.shape() == shape@,
    {
        Tensor { data, shape }
    }

    /// The tensor of shape `shape` whose elements are `data`, if the shape
    /// asks for as many elements as `data` holds; nothing otherwise.
    pub fn try_new(data: Vec<T>, shape: Vec<usize>) -> (tensor: Option<Tensor<T>>)
        ensures
            match tensor {
                Some(t) => {
                    &&& data@.len() == product(shape@)
                    &&& t.well_formed()
                    &&& t.data() == data@
                    &&& t.shape() == shape@
                },
                None => data@.len() != product(shape@),
            },
    {
        let held = data.len();
        match element_count(&shape) {
            Some(count) => {
                if count == held {
                    Some(Tensor::new(data, shape))
                } else {
                    None
                }
            },
            None => None,
        }
    }

    /// The dimensions.
    pub fn dimensions(&self) -> (shape: &Vec<usize>)
        ensures
            shape@ == self.shape(),
    {
        &self.shape
    }

    /// The elements, in row-major order.
    pub fn elements(&self) -> (data: &Vec<T>)
        ensures
            data@ == self.data(),
    {
        &self.data
    }

    /// Where the element that `indices` names stands in the buffer, if the
    /// indices name one.
    pub fn compute_index(&self, indices: &[usize]) -> (index: Option<usize>)
        requires
            self.well_formed(),
        ensures
            match index {
                Some(i) => in_bounds(self.shape(), indices@) && i == offset(
                    self.shape(),
                    indices@,
                ) && i < self.data().len(),
                None => !in_bounds(self.shape(), indices@),
            },
    {
        if indices.len() != self.shape.len() {
            return None;
        }
        let n = self.shape.len();
        let mut k: usize = 0;
        while k < n
            invariant
                k <= n,
                n == self.shape@.len(),
                n == indices@.len(),
                forall|j: int| 0 <= j < k ==> indices@[j] < self.shape@[j],
            decreases n - k,
        {
            if indices[k] >= self.shape[k] {
                return None;
            }
            k += 1;
        }
        let ghost shape = self.shape@;
        let ghost wanted = indices@;
        assert(product(shape) == self.data.len());
        let mut index: usize = 0;
        let mut k: usize = 0;
        while k < n
            invariant
                k <= n,
                n == shape.len(),
                n == wanted.len(),
                shape == self.shape@,
                wanted == indices@,
                in_bounds(shape, wanted),
                product(shape) <= usize::MAX,
                index == offset(shape.take(k as int), wanted.take(k as int)),
                index < product(shape.take(k as int)) || k == 0,
                k == 0 ==> index == 0,
            decreases n - k,
        {
            proof {
                lemma_product_prefix(shape, k + 1);
                lemma_product_prefix(shape, k as int);
                assert(shape.take(k + 1).drop_last() =~= shape.take(k as int));
                assert(wanted.take(k + 1).drop_last() =~= wanted.take(k as int));
                assert(in_bounds(shape.take(k + 1), wanted.take(k + 1)));
                lemma_offset_in_buffer(shape.take(k + 1), wanted.take(k + 1));
                let o = index as nat;
                let d = shape[k as int] as nat;
                assert(o * d <= o * d + wanted[k as int]);
            }
            index = index * self.shape[k] + indices[k];
            k += 1;
        }
        proof {
            assert(shape.take(n as int) =~= shape);
            assert(wanted.take(n as int) =~= wanted);
            lemma_offset_in_buffer(shape, wanted);
        }
        Some(index)
    }

    /// Puts `value` where `indices` point, if they name an element.
    pub fn set(&mut self, indices: &[usize], value: T) -> (result: Result<(), String>)
        requires
            old(self).well_formed(),
        ensures
            final(self).well_formed(),
            final(self).shape() == old(self).shape(),
            match result {
                Ok(_) => in_bounds(old(self).shape(), indices@) && final(self).data() == old(
                    self,
                ).data().update(offset(old(self).shape(), indices@) as int, value),
                Err(message) => !in_bounds(old(self).shape(), indices@) && final(self).data()
                    == old(self).data() && message@ == "Invalid indices"@,
            },
    {
        match self.compute_index(indices) {
            Some(index) => {
                self.data.set(index, value);
                Ok(())
            },
            None => Err(String::from_str("Invalid indices")),
        }
    }
}

impl<T> Tensor<T> {
    /// The three sizes of the product of this matrix with `other`: the rows
    /// of this one, the columns of the other, and the length they share.
    /// Both must have two dimensions, and the columns of this one must be as
    /// many as the rows of the other.
    pub fn matmul_dims(&self, other: &Tensor<T>) -> (sizes: Result<(usize, usize, usize), String>)
        ensures
            match sizes {
                Ok((m, n, p)) => {
                    &&& self.shape() == seq![m, p]
                    &&& other.shape() == seq![p, n]
                },
                Err(message) => if self.shape().len() != 2 || other.shape().len() != 2 {
                    message@
                        == "Both tensors must be 2-dimensional for matrix multiplication"@
                } else {
                    &&& self.shape()[1] != other.shape()[0]
                    &&& message@ == "Inner dimensions must match for matrix multiplication"@
                },
            },
    {
        if self.shape.len() != 2 || other.shape.len() != 2 {
            return Err(
                String::from_str("Both tensors must be 2-dimensional for matrix multiplication"),
            );
        }
        if self.shape[1] != other.shape[0] {
            return Err(String::from_str("Inner dimensions must match for matrix multiplication"));
        }
        assert(self.shape@ =~= seq![self.shape@[0], self.shape@[1]]);
        assert(other.shape@ =~= seq![self.shape@[1], other.shape@[1]]);
        Ok((self.shape[0], other.shape[1], self.shape[1]))
    }
}

impl<T: Copy> Tensor<T> {
    /// The tensor of the same shape whose every element is what `f` makes
    /// of the element that stands there in this one.
    pub fn apply<F: Fn(T) -> T>(&self, f: F) -> (result: Tensor<T>)
        requires
            self.well_formed(),
            forall|i: int| 0 <= i < self.data().len() ==> call_requires(f, (self.data()[i],)),
        ensures
            result.well_formed(),
            result.shape() == self.shape(),
            result.data().len() == self.data().len(),
            forall|i: int|
                0 <= i < self.data().len() ==> call_ensures(
                    f,
                    (self.data()[i],),
                    #[trigger] result.data()[i],
                ),
    {
        let mut data: Vec<T> = Vec::new();
        let mut i: usize = 0;
        while i < self.data.len()
            invariant
                i <= self.data@.len(),
                data@.len() == i,
                forall|k: int| 0 <= k < self.data@.len() ==> call_requires(f, (self.data@[k],)),
                forall|k: int|
                    0 <= k < i ==> call_ensures(f, (self.data@[k],), #[trigger] data@[k]),
            decreases self.data.len() - i,
        {
            data.push(f(self.data[i]));
            i += 1;
        }
        Tensor { data, shape: copy_of(&self.shape) }
    }

    /// Takes the elements one after the other, in row-major order, into a
    /// running value that begins as `zero`, and returns what is left.
    pub fn fold<F: Fn(T, T) -> T>(&self, zero: T, step: F) -> (result: T)
        requires
            forall|acc: T, x: T| call_requires(step, (acc, x)),
        ensures
            reduced(step, zero, self.data(), result),
    {
        let mut result = zero;
        let mut k: usize = 0;
        assert(self.data@.take(0).len() == 0);
        while k < self.data.len()
            invariant
                k <= self.data@.len(),
                forall|acc: T, x: T| call_requires(step, (acc, x)),
                reduced(step, zero, self.data@.take(k as int), result),
            decreases self.data.len() - k,
        {
            let ghost before = result;
            result = step(result, self.data[k]);
            k += 1;
            proof {
                let taken = self.data@.take(k as int);
                assert(taken.drop_last() =~= self.data@.take(k - 1));
                assert(taken.last() == self.data@[k - 1]);
                assert(reduced(step, zero, taken.drop_last(), before));
                assert(call_ensures(step, (before, taken.last()), result));
            }
        }
        proof {
            assert(self.data@.take(k as int) =~= self.data@);
        }
        result
    }

    /// The tensor of the same shape whose every element is what `f` makes
    /// of the two elements that stand there in this one and in `other`.
    pub fn zip_with<F: Fn(T, T) -> T>(&self, other: &Tensor<T>, f: F) -> (result: Tensor<T>)
        requires
            self.well_formed(),
            other.well_formed(),
            self.shape() == other.shape(),
            forall|i: int|
                0 <= i < self.data().len() ==> call_requires(
                    f,
                    (self.data()[i], other.data()[i]),
                ),
        ensures
            result.well_formed(),
            result.shape() == self.shape(),
            result.data().len() == self.data().len(),
            forall|i: int|
                0 <= i < self.data().len() ==> call_ensures(
                    f,
                    (self.data()[i], other.data()[i]),
                    #[trigger] result.data()[i],
                ),
    {
        let mut data: Vec<T> = Vec::new();
        let mut i: usize = 0;
        while i < self.data.len()
            invariant
                i <= self.data@.len(),
                self.data@.len() == other.data@.len(),
                data@.len() == i,
                forall|k: int|
                    0 <= k < self.data@.len() ==> call_requires(
                        f,
                        (self.data@[k], other.data@[k]),
                    ),
                forall|k: int|
                    0 <= k < i ==> call_ensures(
                        f,
                        (self.data@[k], other.data@[k]),
                        #[trigger] data@[k],
                    ),
            decreases self.data.len() - i,
        {
            data.push(f(self.data[i], other.data[i]));
            i += 1;
        }
        Tensor { data, shape: copy_of(&self.shape) }
    }

    /// Row `i` of a matrix, from its first column to its last.
    pub fn row(&self, i: usize) -> (row: Vec<T>)
        requires
            self.well_formed(),
            self.shape().len() == 2,
            i < self.shape()[0],
        ensures
            row@ == self.row_of(i as int),
    {
        let rows = self.shape[0];
        let columns = self.shape[1];
        proof {
            assert(self.shape@ =~= seq![rows, columns]);
            lemma_matrix(rows, columns);
            assert(self.data@.len() == self.data.len());
        }
        let mut row: Vec<T> = Vec::new();
        let mut j: usize = 0;
        while j < columns
            invariant
                j <= columns,
                i < rows,
                self.data@.len() == rows * columns,
                rows * columns <= usize::MAX,
                row@.len() == j,
                forall|c: int|
                    0 <= c < j ==> #[trigger] row@[c] == self.data@[flat(
                        i as int,
                        c,
                        columns as int,
                    )],
            decreases columns - j,
        {
            proof {
                lemma_flat_in_buffer(i as int, j as int, rows as int, columns as int);
                assert(0 <= i * columns) by (nonlinear_arith);
            }
            row.push(self.data[i * columns + j]);
            j += 1;
        }
        assert(row@ =~= self.row_of(i as int));
        row
    }

    /// Column `j` of a matrix, from its first row to its last.
    pub fn column(&self, j: usize) -> (column: Vec<T>)
        requires
            self.well_formed(),
            self.shape().len() == 2,
            j < self.shape()[1],
        ensures
            column@ == self.column_of(j as int),
    {
        let rows = self.shape[0];
        let columns = self.shape[1];
        proof {
            assert(self.shape@ =~= seq![rows, columns]);
            lemma_matrix(rows, columns);
            assert(self.data@.len() == self.data.len());
        }
        let mut column: Vec<T> = Vec::new();
        let mut i: usize = 0;
        while i < rows
            invariant
                i <= rows,
                j < columns,
                self.data@.len() == rows * columns,
                rows * columns <= usize::MAX,
                column@.len() == i,
                forall|r: int|
                    0 <= r < i ==> #[trigger] column@[r] == self.data@[flat(
                        r,
                        j as int,
                        columns as int,
                    )],
            decreases rows - i,
        {
            proof {
                lemma_flat_in_buffer(i as int, j as int, rows as int, columns as int);
                assert(0 <= i * columns) by (nonlinear_arith);
            }
            column.push(self.data[i * columns + j]);
            i += 1;
        }
        assert(column@ =~= self.column_of(j as int));
        column
    }

    /// The product of this matrix with `other`, where `step` adds the
    /// product of two elements to a running sum that begins as `zero`: the
    /// element in row `i` and column `j` of the result is what is left of
    /// row `i` of this matrix and column `j` of the other. Both must have
    /// two dimensions, and the columns of this one must be as many as the
    /// rows of the other.
    pub fn matmul<F: Fn(T, T, T) -> T>(&self, other: &Tensor<T>, zero: T, step: F) -> (result:
        Result<Tensor<T>, String>)
        requires
            self.well_formed(),
            other.well_formed(),
            forall|acc: T, x: T, y: T| call_requires(step, (acc, x, y)),
        ensures
            match result {
                Ok(product) => {
                    &&& self.shape().len() == 2
                    &&& other.shape().len() == 2
                    &&& self.shape()[1] == other.shape()[0]
                    &&& product.well_formed()
                    &&& product.shape() == seq![self.shape()[0], other.shape()[1]]
                    &&& forall|i: int, j: int|
                        0 <= i < self.shape()[0] && 0 <= j < other.shape()[1] ==> folded(
                            step,
                            zero,
                            self.row_of(i),
                            other.column_of(j),
                            #[trigger] product.data()[flat(i, j, other.shape()[1] as int)],
                        )
                },
                Err(message) => if self.shape().len() != 2 || other.shape().len() != 2 {
                    message@
                        == "Both tensors must be 2-dimensional for matrix multiplication"@
                } else {
                    &&& self.shape()[1] != other.shape()[0]
                    &&& message@ == "Inner dimensions must match for matrix multiplication"@
                },
            },
    {
        let (m, n, p) = match self.matmul_dims(other) {
            Ok(sizes) => sizes,
            Err(message) => {
                return Err(message);
            },
        };
        let mut data: Vec<T> = Vec::new();
        let mut i: usize = 0;
        while i < m
            invariant
                i <= m,
                self.well_formed(),
                other.well_formed(),
                self.shape() == seq![m, p],
                other.shape() == seq![p, n],
                forall|acc: T, x: T, y: T| call_requires(step, (acc, x, y)),
                data@.len() == i * n,
                forall|r: int, c: int|
                    0 <= r < i && 0 <= c < n ==> folded(
                        step,
                        zero,
                        self.row_of(r),
                        other.column_of(c),
                        #[trigger] data@[flat(r, c, n as int)],
                    ),
            decreases m - i,
        {
            let row = self.row(i);
            let mut j: usize = 0;
            while j < n
                invariant
                    j <= n,
                    i < m,
                    self.well_formed(),
                    other.well_formed(),
                    self.shape() == seq![m, p],
                    other.shape() == seq![p, n],
                    row@ == self.row_of(i as int),
                    forall|acc: T, x: T, y: T| call_requires(step, (acc, x, y)),
                    data@.len() == i * n + j,
                    forall|r: int, c: int|
                        0 <= r < i && 0 <= c < n ==> folded(
                            step,
                            zero,
                            self.row_of(r),
                            other.column_of(c),
                            #[trigger] data@[flat(r, c, n as int)],
                        ),
                    forall|c: int|
                        0 <= c < j ==> folded(
                            step,
                            zero,
                            self.row_of(i as int),
                            other.column_of(c),
                            #[trigger] data@[flat(i as int, c, n as int)],
                        ),
                decreases n - j,
            {
                let column = other.column(j);
                let ghost before = data@;
                let sum = fold_pairs(&row, &column, zero, &step);
                data.push(sum);
                proof {
                    assert forall|r: int, c: int| 0 <= r < i && 0 <= c < n implies folded(
                        step,
                        zero,
                        self.row_of(r),
                        other.column_of(c),
                        #[trigger] data@[flat(r, c, n as int)],
                    ) by {
                        lemma_flat_in_buffer(r, c, i as int, n as int);
                        assert(data@[flat(r, c, n as int)] == before[flat(r, c, n as int)]);
                    }
                    assert forall|c: int| 0 <= c < j + 1 implies folded(
                        step,
                        zero,
                        self.row_of(i as int),
                        other.column_of(c),
                        #[trigger] data@[flat(i as int, c, n as int)],
                    ) by {
                        if c < j {
                            assert(data@[flat(i as int, c, n as int)] == before[flat(
                                i as int,
                                c,
                                n as int,
                            )]);
                        }
                    }
                }
                j += 1;
            }
            proof {
                assert((i + 1) * n == i * n + n) by (nonlinear_arith);
            }
            i += 1;
        }
        let mut shape: Vec<usize> = Vec::new();
        shape.push(m);
        shape.push(n);
        proof {
            assert(shape@ =~= seq![m, n]);
            lemma_matrix(m, n);
        }
        Ok(Tensor { data, shape })
    }

    /// The transpose of a matrix: the element in row `i` and column `j` of
    /// this tensor stands in row `j` and column `i` of the result.
    pub fn transpose(&self) -> (result: Tensor<T>)
        requires
            self.well_formed(),
            self.shape().len() == 2,
        ensures
            result.well_formed(),
            result.shape() == seq![self.shape()[1], self.shape()[0]],
            result.data().len() == self.data().len(),
            forall|i: int, j: int|
                0 <= i < self.shape()[0] && 0 <= j < self.shape()[1] ==> #[trigger] result.data()[flat(
                    j,
                    i,
                    self.shape()[0] as int,
                )] == self.data()[flat(i, j, self.shape()[1] as int)],
    {
        let rows = self.shape[0];
        let columns = self.shape[1];
        let ghost source = self.data@;
        proof {
            assert(self.shape@ =~= seq![rows, columns]);
            lemma_matrix(rows, columns);
            lemma_matrix(columns, rows);
            assert(rows * columns == columns * rows) by (nonlinear_arith);
            assert(source.len() == self.data.len());
        }
        let mut data: Vec<T> = Vec::new();
        let mut j: usize = 0;
        while j < columns
            invariant
                j <= columns,
                source == self.data@,
                source.len() == rows * columns,
                rows * columns <= usize::MAX,
                data@.len() == j * rows,
                forall|c: int, r: int|
                    0 <= c < j && 0 <= r < rows ==> #[trigger] data@[flat(c, r, rows as int)]
                        == source[flat(r, c, columns as int)],
            decreases columns - j,
        {
            let mut i: usize = 0;
            while i < rows
                invariant
                    i <= rows,
                    j < columns,
                    source == self.data@,
                    source.len() == rows * columns,
                    rows * columns <= usize::MAX,
                    data@.len() == j * rows + i,
                    forall|c: int, r: int|
                        0 <= c < j && 0 <= r < rows ==> #[trigger] data@[flat(c, r, rows as int)]
                            == source[flat(r, c, columns as int)],
                    forall|r: int|
                        0 <= r < i ==> #[trigger] data@[flat(j as int, r, rows as int)]
                            == source[flat(r, j as int, columns as int)],
                decreases rows - i,
            {
                let ghost before = data@;
                proof {
                    lemma_flat_in_buffer(i as int, j as int, rows as int, columns as int);
                    assert(i * columns <= flat(i as int, j as int, columns as int));
                    assert(0 <= i * columns) by (nonlinear_arith);
                }
                data.push(self.data[i * columns + j]);
                proof {
                    assert forall|c: int, r: int| 0 <= c < j && 0 <= r < rows implies #[trigger]
                        data@[flat(c, r, rows as int)] == source[flat(r, c, columns as int)] by {
                        lemma_flat_in_buffer(c, r, j as int, rows as int);
                        assert(before[flat(c, r, rows as int)] == source[flat(
                            r,
                            c,
                            columns as int,
                        )]);
                    }
                    assert forall|r: int| 0 <= r < i + 1 implies #[trigger] data@[flat(
                        j as int,
                        r,
                        rows as int,
                    )] == source[flat(r, j as int, columns as int)] by {
                        if r < i {
                            assert(before[flat(j as int, r, rows as int)] == source[flat(
                                r,
                                j as int,
                                columns as int,
                            )]);
                        }
                    }
                }
                i += 1;
            }
            proof {
                assert((j + 1) * rows == j * rows + rows) by (nonlinear_arith);
            }
            j += 1;
        }
        let mut shape: Vec<usize> = Vec::new();
        shape.push(columns);
        shape.push(rows);
        proof {
            assert(shape@ =~= seq![columns, rows]);
            assert(columns * rows == rows * columns) by (nonlinear_arith);
        }
        Tensor { data, shape }
    }

    /// The tensor of shape `shape` whose elements are all `value`, if the
    /// number of its elements fits the machine's word.
    pub fn filled(shape: Vec<usize>, value: T) -> (tensor: Option<Tensor<T>>)
        ensures
            match tensor {
                Some(t) => {
                    &&& t.well_formed()
                    &&& t.shape() == shape@
                    &&& forall|i: int| 0 <= i < t.data().len() ==> t.data()[i] == value
                },
                None => product(shape@) > usize::MAX,
            },
    {
        match element_count(&shape) {
            Some(count) => {
                let mut data: Vec<T> = Vec::new();
                let mut i: usize = 0;
                while i < count
                    invariant
                        i <= count,
                        data@.len() == i,
                        forall|j: int| 0 <= j < i ==> data@[j] == value,
                    decreases count - i,
                {
                    data.push(value);
                    i += 1;
                }
                Some(Tensor { data, shape })
            },
            None => None,
        }
    }

    /// The element that `indices` name, if they name one.
    pub fn get(&self, indices: &[usize]) -> (element: Option<T>)
        requires
            self.well_formed(),
        ensures
            match element {
                Some(e) => in_bounds(self.shape(), indices@) && e == self.data()[offset(
                    self.shape(),
                    indices@,
                ) as int],
                None => !in_bounds(self.shape(), indices@),
            },
    {
        match self.compute_index(indices) {
            Some(index) => Some(self.data[index]),
            None => None,
        }
    }
}

} // verus!
