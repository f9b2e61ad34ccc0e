//! A tensor whose dimensions have names: its values are found by saying
//! which index is meant along which dimension, in any order.

use std::any::TypeId;
use vstd::prelude::*;
use vstd::std_specs::cmp::PartialEqSpecImpl;

verus! {

/// `std::any::TypeId`, which the proofs cannot look into.
#[verifier::external_type_specification]
#[verifier::external_body]
pub struct ExTypeId(TypeId);

/// `TypeId::of`: the identifier of a type. Nothing is claimed of it.
#[verifier::external_body]
fn type_id_of<T: 'static>() -> (id: TypeId) {
    TypeId::of::<T>()
}

/// `==` on `TypeId`: whether two identifiers are the same.
#[verifier::external_body]
fn same_type_id(first: &TypeId, second: &TypeId) -> (same: bool)
    ensures
        same == (*first == *second),
{
    first == second
}

/// The name of a dimension: a type that stands for it.
#[derive(Copy, Clone, Debug)]
pub struct Dimension {
    name: TypeId,
}

impl PartialEq for Dimension {
    fn eq(&self, other: &Dimension) -> (r: bool) {
        same_type_id(&self.name, &other.name)
    }
}

impl Eq for Dimension {

}

impl PartialEqSpecImpl for Dimension {
    open spec fn obeys_eq_spec() -> bool {
        true
    }

    open spec fn eq_spec(&self, other: &Dimension) -> bool {
        *self == *other
    }
}

impl Dimension {
    /// The dimension that a type names.
    pub fn new<T: 'static>() -> Self {
        Dimension { name: type_id_of::<T>() }
    }
}

/// The dimension that a type names.
pub fn dimension<T: 'static>() -> Dimension {
    Dimension::new::<T>()
}

/// The dimension that a type names, with a length or an index along it.
pub fn of<T: 'static>(length: usize) -> (r: (Dimension, usize))
    ensures
        r.1 == length,
{
    (dimension::<T>(), length)
}

/// Whether no two dimensions of a list have the same name.
pub open spec fn names_distinct(dimensions: Seq<(Dimension, usize)>) -> bool {
    forall|i: int, j: int|
        0 <= i < j < dimensions.len() ==> (#[trigger] dimensions[i]).0 != (
        #[trigger] dimensions[j]).0
}

/// Whether a list of dimensions holds one with a given name.
pub open spec fn has_name(dimensions: Seq<(Dimension, usize)>, name: Dimension) -> bool {
    exists|j: int| 0 <= j < dimensions.len() && (#[trigger] dimensions[j]).0 == name
}

/// The product of the lengths of the dimensions from `low` up to, not
/// including, `high`.
pub open spec fn span(dimensions: Seq<(Dimension, usize)>, low: int, high: int) -> int
    decreases high - low,
{
    if low >= high {
        1
    } else {
        span(dimensions, low, high - 1) * dimensions[high - 1].1
    }
}

/// Whether two dimensions of a list have the same name.
pub fn has_duplicates(dimensions: &[(Dimension, usize)]) -> (r: bool)
    ensures
        r == !names_distinct(dimensions@),
{
    let mut i: usize = 1;
    while i < dimensions.len()
        invariant
            1 <= i,
            forall|a: int, b: int|
                0 <= a < b < dimensions@.len() && a < i - 1 ==> (#[trigger] dimensions@[a]).0 != (
                #[trigger] dimensions@[b]).0,
        decreases dimensions@.len() - i,
    {
        let name = dimensions[i - 1].0;
        let mut j: usize = i;
        while j < dimensions.len()
            invariant
                1 <= i <= j,
                i < dimensions@.len(),
                name == dimensions@[i - 1].0,
                forall|b: int| i <= b < j ==> (#[trigger] dimensions@[b]).0 != name,
            decreases dimensions@.len() - j,
        {
            if dimensions[j].0 == name {
                return true;
            }
            j = j + 1;
        }
        i = i + 1;
    }
    false
}

/// Whether a list of dimensions holds one with a given name.
pub fn has(dimensions: &[(Dimension, usize)], name: Dimension) -> (r: bool)
    ensures
        r == has_name(dimensions@, name),
{
    let mut j: usize = 0;
    while j < dimensions.len()
        invariant
            forall|b: int| 0 <= b < j && b < dimensions@.len() ==> (#[trigger] dimensions@[b]).0
                != name,
        decreases dimensions@.len() - j,
    {
        if dimensions[j].0 == name {
            return true;
        }
        j = j + 1;
    }
    false
}

/// A place in a list of named indices at which a name stands.
pub open spec fn place_of(given: Seq<(Dimension, usize)>, name: Dimension) -> int {
    choose|j: int| 0 <= j < given.len() && (#[trigger] given[j]).0 == name
}

/// The index that a list of named indices gives for a name.
pub open spec fn picked(given: Seq<(Dimension, usize)>, name: Dimension) -> int {
    given[place_of(given, name)].1 as int
}

/// Whether a list of named indices has an index for every dimension of a
/// shape.
pub open spec fn covers(shape: Seq<(Dimension, usize)>, given: Seq<(Dimension, usize)>) -> bool {
    forall|i: int| 0 <= i < shape.len() ==> has_name(given, (#[trigger] shape[i]).0)
}

/// The place in memory that named indices lead to, as far as the first
/// `count` dimensions of the shape go: each index is multiplied by the
/// lengths of all the dimensions that follow its own.
pub open spec fn offset(
    shape: Seq<(Dimension, usize)>,
    given: Seq<(Dimension, usize)>,
    count: int,
) -> int
    decreases count,
{
    if count <= 0 {
        0
    } else {
        offset(shape, given, count - 1) + picked(given, shape[count - 1].0) * span(
            shape,
            count,
            shape.len() as int,
        )
    }
}

/// No product of lengths is negative.
pub proof fn lemma_span_positive(dimensions: Seq<(Dimension, usize)>, low: int, high: int)
    requires
        0 <= low,
        high <= dimensions.len(),
    ensures
        span(dimensions, low, high) >= 0,
    decreases high - low,
{
    if low < high {
        lemma_span_positive(dimensions, low, high - 1);
        let before = span(dimensions, low, high - 1);
        let last = dimensions[high - 1].1 as int;
        assert(before * last >= 0) by (nonlinear_arith)
            requires
                before >= 0,
                last >= 0,
        ;
    }
}

/// The product of the lengths of a run of dimensions is the product of the
/// products of its two parts.
pub proof fn lemma_span_split(dimensions: Seq<(Dimension, usize)>, low: int, mid: int, high: int)
    requires
        0 <= low <= mid <= high <= dimensions.len(),
    ensures
        span(dimensions, low, high) == span(dimensions, low, mid) * span(dimensions, mid, high),
    decreases high - mid,
{
    if mid < high {
        lemma_span_split(dimensions, low, mid, high - 1);
        let first = span(dimensions, low, mid);
        let second = span(dimensions, mid, high - 1);
        let last = dimensions[high - 1].1 as int;
        assert((first * second) * last == first * (second * last)) by (nonlinear_arith);
    } else {
        assert(span(dimensions, mid, high) == 1);
        assert(span(dimensions, low, mid) * 1 == span(dimensions, low, mid)) by (nonlinear_arith);
    }
}

/// Where the product of all the lengths is not zero, the product of a run
/// of them is no more than it.
pub proof fn lemma_span_bound(dimensions: Seq<(Dimension, usize)>, low: int, high: int)
    requires
        0 <= low <= high <= dimensions.len(),
        span(dimensions, 0, dimensions.len() as int) > 0,
    ensures
        0 < span(dimensions, low, high) <= span(dimensions, 0, dimensions.len() as int),
{
    let end = dimensions.len() as int;
    lemma_span_split(dimensions, 0, low, end);
    lemma_span_split(dimensions, low, high, end);
    lemma_span_positive(dimensions, 0, low);
    lemma_span_positive(dimensions, low, high);
    lemma_span_positive(dimensions, high, end);
    let a = span(dimensions, 0, low);
    let b = span(dimensions, low, high);
    let c = span(dimensions, high, end);
    let all = span(dimensions, 0, end);
    assert(0 < b <= all) by (nonlinear_arith)
        requires
            a >= 0,
            b >= 0,
            c >= 0,
            all == a * (b * c),
            all > 0,
    ;
}

/// The place in memory does not go down as more dimensions are counted in.
pub proof fn lemma_offset_grows(
    shape: Seq<(Dimension, usize)>,
    given: Seq<(Dimension, usize)>,
    fewer: int,
    more: int,
)
    requires
        0 <= fewer <= more <= shape.len(),
    ensures
        0 <= offset(shape, given, fewer) <= offset(shape, given, more),
    decreases more,
{
    if more > 0 {
        let index = picked(given, shape[more - 1].0);
        let stride = span(shape, more, shape.len() as int);
        lemma_span_positive(shape, more, shape.len() as int);
        assert(index * stride >= 0) by (nonlinear_arith)
            requires
                index >= 0,
                stride >= 0,
        ;
        if fewer < more {
            lemma_offset_grows(shape, given, fewer, more - 1);
        } else {
            lemma_offset_grows(shape, given, fewer - 1, more - 1);
        }
    }
}

/// A tensor: values in a block of memory, and the dimensions, each with its
/// name and its length, that lead to them.
pub struct Tensor<T, const D: usize> {
    data: Vec<T>,
    dimensions: [(Dimension, usize); D],
}

impl<T, const D: usize> Tensor<T, D> {
    /// The values of the tensor, in the order of its memory.
    pub closed spec fn values(&self) -> Seq<T> {
        self.data@
    }

    /// The dimensions of the tensor, the one that strides furthest first.
    pub closed spec fn shape(&self) -> Seq<(Dimension, usize)> {
        self.dimensions@
    }

    /// A tensor is well formed when its dimensions have distinct names and
    /// the product of their lengths is the number of its values.
    pub open spec fn well_formed(&self) -> bool {
        &&& self.shape().len() == D
        &&& names_distinct(self.shape())
        &&& span(self.shape(), 0, D as int) == self.values().len()
    }

    /// A tensor of the given values with the given dimensions. The product
    /// of the lengths must be the number of values, and the names of the
    /// dimensions must all differ.
    pub fn new(data: Vec<T>, dimensions: [(Dimension, usize); D]) -> (r: Self)
        requires
            data@.len() == span(dimensions@, 0, D as int),
            names_distinct(dimensions@),
        ensures
            r.well_formed(),
            r.values() == data@,
            r.shape() == dimensions@,
    {
        Tensor { data, dimensions }
    }

    /// The place in `dimensions` of the first dimension with a given name.
    fn find(dimensions: &[(Dimension, usize); D], name: Dimension) -> (r: Option<usize>)
        ensures
            r.is_none() ==> !has_name(dimensions@, name),
            r matches Some(j) ==> j < D && dimensions@[j as int].0 == name,
    {
        let mut j: usize = 0;
        while j < D
            invariant
                j <= D,
                dimensions@.len() == D,
                forall|b: int| 0 <= b < j ==> (#[trigger] dimensions@[b]).0 != name,
            decreases D - j,
        {
            if dimensions[j].0 == name {
                return Some(j);
            }
            j = j + 1;
        }
        None
    }

    /// The product of the lengths of the dimensions after a given one.
    fn stride(&self, dimension: usize) -> (r: usize)
        requires
            self.well_formed(),
            self.values().len() > 0,
            dimension < D,
        ensures
            r == span(self.shape(), dimension + 1, D as int),
    {
        let mut stride: usize = 1;
        let mut k: usize = dimension + 1;
        while k < D
            invariant
                self.well_formed(),
                self.values().len() > 0,
                dimension < k <= D,
                stride == span(self.shape(), dimension + 1, k as int),
            decreases D - k,
        {
            proof {
                lemma_span_bound(self.shape(), dimension + 1, k + 1);
                assert(span(self.shape(), dimension + 1, k + 1) == span(
                    self.shape(),
                    dimension + 1,
                    k as int,
                ) * self.shape()[k as int].1);
                assert(self.data@.len() == self.data.len());
            }
            stride = stride * self.dimensions[k].1;
            k = k + 1;
        }
        stride
    }

    /// The value that named indices lead to: one index for each dimension of
    /// the tensor, in any order. There is none if a dimension of the tensor
    /// is not among the names, or if the indices lead out of the tensor's
    /// memory.
    pub fn get(&self, dimensions: [(Dimension, usize); D]) -> (r: Option<&T>)
        requires
            self.well_formed(),
        ensures
            r == if covers(self.shape(), dimensions@) && offset(
                self.shape(),
                dimensions@,
                D as int,
            ) < self.values().len() {
                Some(&self.values()[offset(self.shape(), dimensions@, D as int)])
            } else {
                None
            },
    {
        let ghost given = dimensions@;
        let ghost shape = self.shape();
        // where each of the indices came from, and where each has gone
        let ghost mut origin: Seq<int> = Seq::new(D as nat, |k: int| k);
        let ghost mut place: Seq<int> = Seq::new(D as nat, |k: int| k);
        let mut arranged = dimensions;
        // go through our dimensions in memory order
        let mut i: usize = 0;
        while i < D
            invariant
                self.well_formed(),
                shape == self.shape(),
                given == dimensions@,
                given.len() == D,
                arranged@.len() == D,
                i <= D,
                origin.len() == D,
                place.len() == D,
                forall|k: int|
                    0 <= k < D ==> 0 <= #[trigger] origin[k] < D && place[origin[k]] == k
                        && arranged@[k] == given[origin[k]],
                forall|j: int| 0 <= j < D ==> 0 <= #[trigger] place[j] < D && origin[place[j]] == j,
                forall|k: int| 0 <= k < i ==> (#[trigger] arranged@[k]).0 == shape[k].0,
            decreases D - i,
        {
            let dimension = self.dimensions[i].0;
            // check if the dimensions given are in the same order
            if !(arranged[i].0 == dimension) {
                // swap input dimensions to put them in the same order as our
                // memory order, returning None if we don't have a match
                let j = match Self::find(&arranged, dimension) {
                    Some(j) => j,
                    None => {
                        assert(!covers(shape, given)) by {
                            if has_name(given, shape[i as int].0) {
                                let from = place_of(given, shape[i as int].0);
                                assert(arranged@[place[from]] == given[origin[place[from]]]);
                            }
                        }
                        return None;
                    },
                };
                if j < i {
                    assert(arranged@[j as int].0 == shape[j as int].0);
                    assert(shape[j as int].0 == shape[i as int].0);
                    return None;
                }
                // put this dimension into the same order as our memory order
                let ghost before = arranged@;
                let ghost origin_before = origin;
                let ghost place_before = place;
                let moved = arranged[i];
                arranged[i] = arranged[j];
                arranged[j] = moved;
                proof {
                    let from_i = origin[i as int];
                    let from_j = origin[j as int];
                    origin = origin.update(i as int, from_j).update(j as int, from_i);
                    place = place.update(from_j, i as int).update(from_i, j as int);
                    assert(arranged@ == before.update(i as int, before[j as int]).update(
                        j as int,
                        before[i as int],
                    ));
                    assert forall|k: int| 0 <= k < D implies 0 <= #[trigger] origin[k] < D
                        && place[origin[k]] == k && arranged@[k] == given[origin[k]] by {
                        assert(0 <= origin_before[k] < D);
                        assert(place_before[origin_before[k]] == k);
                        assert(place_before[from_i] == i);
                        assert(place_before[from_j] == j);
                    }
                    assert forall|from: int| 0 <= from < D implies 0 <= #[trigger] place[from] < D
                        && origin[place[from]] == from by {
                        assert(0 <= place_before[from] < D);
                        assert(origin_before[place_before[from]] == from);
                    }
                }
            }
            i = i + 1;
        }
        proof {
            assert forall|k: int| 0 <= k < D implies picked(given, (#[trigger] shape[k]).0)
                == arranged@[k].1 by {
                let name = shape[k].0;
                assert(arranged@[k].0 == name);
                assert(given[origin[k]].0 == name);
                let from = place_of(given, name);
                assert(0 <= place[from] < D);
                assert(arranged@[place[from]] == given[origin[place[from]]]);
                assert(arranged@[place[from]].0 == shape[place[from]].0);
                assert(place[from] == k) by {
                    if place[from] < k {
                        assert(shape[place[from]].0 != shape[k].0);
                    } else if place[from] > k {
                        assert(shape[k].0 != shape[place[from]].0);
                    }
                }
                assert(from == origin[k]);
                assert(picked(given, name) == given[from].1);
                assert(arranged@[k] == given[origin[k]]);
            }
            assert(covers(shape, given)) by {
                assert forall|k: int| 0 <= k < shape.len() implies has_name(
                    given,
                    (#[trigger] shape[k]).0,
                ) by {
                    assert(arranged@[k].0 == shape[k].0);
                    assert(given[origin[k]].0 == shape[k].0);
                }
            }
            lemma_offset_grows(shape, given, 0, D as int);
        }
        if self.data.len() == 0 {
            return None;
        }
        let mut index: usize = 0;
        let mut d: usize = 0;
        while d < D
            invariant
                self.well_formed(),
                shape == self.shape(),
                given == dimensions@,
                covers(shape, given),
                self.values().len() > 0,
                arranged@.len() == D,
                d <= D,
                index == offset(shape, given, d as int),
                forall|k: int|
                    0 <= k < D ==> picked(given, (#[trigger] shape[k]).0) == arranged@[k].1,
            decreases D - d,
        {
            let n = arranged[d].1;
            let stride = self.stride(d);
            assert(picked(given, shape[d as int].0) == n);
            proof {
                lemma_offset_grows(shape, given, d + 1, D as int);
                lemma_offset_grows(shape, given, d as int, d + 1);
                assert(offset(shape, given, d + 1) == offset(shape, given, d as int) + n * stride);
                assert(self.data@.len() == self.data.len());
                assert(n * stride >= 0) by (nonlinear_arith)
                    requires
                        n >= 0,
                        stride >= 0,
                ;
            }
            let step = match n.checked_mul(stride) {
                Some(step) => step,
                None => {
                    return None;
                },
            };
            index = match index.checked_add(step) {
                Some(index) => index,
                None => {
                    return None;
                },
            };
            d = d + 1;
        }
        if index < self.data.len() {
            Some(&self.data[index])
        } else {
            None
        }
    }
}

} // verus!
