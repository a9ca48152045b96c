//! The capabilities of a vector and of a matrix, and the algorithms that
//! follow from them for every representation.

use crate::algebra::grid::column_of;
use crate::algebra::grid::rectangular;
use crate::algebra::grid::rows_addable;
use crate::algebra::grid::rows_added;
use crate::algebra::grid::rows_added_yield;
use crate::algebra::grid::rows_scalable;
use crate::algebra::grid::rows_scaled;
use crate::algebra::grid::rows_scaled_yield;
use crate::algebra::grid::uniform;
use crate::algebra::scalar::lanewise;
use crate::algebra::scalar::lanewise_defined;
use crate::algebra::scalar::lanewise_yields;
use crate::algebra::scalar::lemma_lanewise_exact;
use crate::algebra::scalar::lemma_scaled_exact;
use crate::algebra::scalar::scalable;
use crate::algebra::scalar::scaled;
use crate::algebra::scalar::scaled_yields;
use crate::algebra::scalar::Operator;
use crate::algebra::scalar::Scalar;
use vstd::prelude::*;
use vstd::std_specs::ops::AddSpec;
use vstd::std_specs::ops::MulSpec;

verus! {

/// What a representation of vectors must offer. Scaling, lane-wise sum and
/// product, conversion from and to a run of lanes, and the sum of the lanes
/// are its own; the dot product and the magnitude follow from them.
pub trait Vector<S: Scalar>: Sized + Clone {
    /// The lanes of the vector, in order.
    spec fn lanes(&self) -> Seq<S>;

    /// Whether the additions that `partial_sum` makes on such lanes are all
    /// defined.
    spec fn summable(lanes: Seq<S>) -> bool;

    /// Whether `r` can be the sum of `lanes`, in the order in which the
    /// representation adds them.
    spec fn sums_to(lanes: Seq<S>, r: S) -> bool;

    /// The sum of a non-empty run of lanes, in the order in which the
    /// representation adds them, for an exact lane type.
    spec fn sum_of(lanes: Seq<S>) -> S;

    /// For an exact lane type, a non-empty run of lanes sums to `sum_of` and
    /// to nothing else.
    proof fn lemma_sum_exact(lanes: Seq<S>, r: S)
        requires
            lanes.len() > 0,
            S::obeys_add_spec(),
            Self::sums_to(lanes, r),
        ensures
            r == Self::sum_of(lanes),
    ;

    /// A clone has the lanes of what it was cloned from.
    proof fn lemma_clone_keeps_lanes(&self, copy: &Self)
        requires
            cloned(*self, *copy),
        ensures
            copy.lanes() == self.lanes(),
    ;

    /// Multiplies every lane by `scalar`.
    fn scale(self, scalar: S) -> (r: Self)
        requires
            scalable(self.lanes(), scalar),
        ensures
            scaled_yields(self.lanes(), scalar, r.lanes()),
            S::obeys_mul_spec() ==> r.lanes() == scaled(self.lanes(), scalar),
    ;

    /// The lane-wise sum of two vectors of one length.
    fn add(self, rhs: Self) -> (r: Self)
        requires
            lanewise_defined(Operator::Add, self.lanes(), rhs.lanes()),
        ensures
            lanewise_yields(Operator::Add, self.lanes(), rhs.lanes(), r.lanes()),
            S::obeys_add_spec() ==> r.lanes() == lanewise(Operator::Add, self.lanes(), rhs.lanes()),
    ;

    /// The lane-wise product of two vectors of one length.
    fn elem_mul(self, rhs: Self) -> (r: Self)
        requires
            lanewise_defined(Operator::Mul, self.lanes(), rhs.lanes()),
        ensures
            lanewise_yields(Operator::Mul, self.lanes(), rhs.lanes(), r.lanes()),
            S::obeys_mul_spec() ==> r.lanes() == lanewise(Operator::Mul, self.lanes(), rhs.lanes()),
    ;

    /// The vector of the given lanes.
    fn from_vec(input: Vec<S>) -> (r: Self)
        ensures
            r.lanes() == input@,
    ;

    /// The lanes of the vector.
    fn to_vec(&self) -> (r: Vec<S>)
        ensures
            r@ == self.lanes(),
    ;

    /// The sum of the lanes; the default of the lane type if there is none.
    fn partial_sum(&self) -> (r: S)
        requires
            Self::summable(self.lanes()),
        ensures
            Self::sums_to(self.lanes(), r),
            self.lanes().len() == 0 ==> call_ensures(S::default, (), r),
            self.lanes().len() > 0 && S::obeys_add_spec() ==> r == Self::sum_of(self.lanes()),
    ;

    /// The magnitude: the square root of the dot product of the vector with
    /// itself. The square root is the caller's, as the lane type has none of
    /// its own.
    fn magnitude<F: Fn(S) -> S>(&self, sqrt: F) -> (r: S)
        requires
            lanewise_defined(Operator::Mul, self.lanes(), self.lanes()),
            forall|p: Seq<S>|
                (#[trigger] lanewise_yields(Operator::Mul, self.lanes(), self.lanes(), p))
                    ==> Self::summable(p),
            forall|x: S| call_requires(sqrt, (x,)),
        ensures
            exists|p: Seq<S>, d: S|
                {
                    &&& lanewise_yields(Operator::Mul, self.lanes(), self.lanes(), p)
                    &&& #[trigger] Self::sums_to(p, d)
                    &&& call_ensures(sqrt, (d,), r)
                },
            self.lanes().len() > 0 && S::obeys_add_spec() && S::obeys_mul_spec() ==> call_ensures(
                sqrt,
                (Self::sum_of(lanewise(Operator::Mul, self.lanes(), self.lanes())),),
                r,
            ),
    {
        let left = self.clone();
        let right = self.clone();
        proof {
            self.lemma_clone_keeps_lanes(&left);
            self.lemma_clone_keeps_lanes(&right);
        }
        let d = left.dot(right);
        let r = sqrt(d);
        proof {
            let p = choose|p: Seq<S>|
                (#[trigger] lanewise_yields(Operator::Mul, self.lanes(), self.lanes(), p))
                    && Self::sums_to(p, d);
            assert(lanewise_yields(Operator::Mul, self.lanes(), self.lanes(), p) && Self::sums_to(
                p,
                d,
            ) && call_ensures(sqrt, (d,), r));
        }
        r
    }

    /// The dot product of two vectors of one length: the sum of their
    /// lane-wise product.
    fn dot(self, rhs: Self) -> (r: S)
        requires
            lanewise_defined(Operator::Mul, self.lanes(), rhs.lanes()),
            forall|p: Seq<S>|
                (#[trigger] lanewise_yields(Operator::Mul, self.lanes(), rhs.lanes(), p))
                    ==> Self::summable(p),
        ensures
            exists|p: Seq<S>|
                (#[trigger] lanewise_yields(Operator::Mul, self.lanes(), rhs.lanes(), p))
                    && Self::sums_to(p, r),
            self.lanes().len() == 0 ==> call_ensures(S::default, (), r),
            self.lanes().len() > 0 && S::obeys_add_spec() && S::obeys_mul_spec() ==> r
                == Self::sum_of(lanewise(Operator::Mul, self.lanes(), rhs.lanes())),
    {
        let products = self.elem_mul(rhs);
        let r = products.partial_sum();
        assert(lanewise_yields(Operator::Mul, self.lanes(), rhs.lanes(), products.lanes())
            && Self::sums_to(products.lanes(), r));
        r
    }
}

/// Whether the dot product of `a` and `b` can be computed by the
/// representation `V`: the lanes can be multiplied pair by pair, and the
/// products can be summed, whatever the multiplications have yielded.
pub open spec fn dot_defined<S: Scalar, V: Vector<S>>(a: Seq<S>, b: Seq<S>) -> bool {
    &&& lanewise_defined(Operator::Mul, a, b)
    &&& forall|p: Seq<S>|
        (#[trigger] lanewise_yields(Operator::Mul, a, b, p)) ==> V::summable(p)
}

/// Whether `d` can be the dot product of `a` and `b` as the representation
/// `V` computes it: the sum of what the lane-wise product yields.
pub open spec fn dot_yields<S: Scalar, V: Vector<S>>(a: Seq<S>, b: Seq<S>, d: S) -> bool {
    exists|p: Seq<S>| (#[trigger] lanewise_yields(Operator::Mul, a, b, p)) && V::sums_to(p, d)
}

/// The dot product of `a` and `b` as the representation `V` computes it, for
/// an exact lane type: the sum of the lane-wise products.
pub open spec fn dot_of<S: Scalar, V: Vector<S>>(a: Seq<S>, b: Seq<S>) -> S {
    V::sum_of(lanewise(Operator::Mul, a, b))
}

/// For an exact lane type, the dot product of two non-empty vectors is
/// `dot_of` and nothing else.
pub proof fn lemma_dot_exact<S: Scalar, V: Vector<S>>(a: Seq<S>, b: Seq<S>, d: S)
    requires
        a.len() > 0,
        S::obeys_add_spec(),
        S::obeys_mul_spec(),
        dot_yields::<S, V>(a, b, d),
    ensures
        d == dot_of::<S, V>(a, b),
{
    let p = choose|p: Seq<S>|
        (#[trigger] lanewise_yields(Operator::Mul, a, b, p)) && V::sums_to(p, d);
    lemma_lanewise_exact(Operator::Mul, a, b, p);
    V::lemma_sum_exact(p, d);
}

/// The lanes of each of a run of vectors.
pub open spec fn lines_of<S: Scalar, V: Vector<S>>(lines: Seq<V>) -> Seq<Seq<S>> {
    Seq::new(lines.len(), |i: int| lines[i].lanes())
}

/// Whether the product of the rows `a` with the rows `b` can be computed by
/// the representation `V`: the dot product of every row of `a` with every
/// column of `b` can.
pub open spec fn product_defined<S: Scalar, V: Vector<S>>(a: Seq<Seq<S>>, b: Seq<Seq<S>>) -> bool {
    forall|i: int, j: int|
        0 <= i < a.len() && 0 <= j < b[0].len() ==> #[trigger] dot_defined::<S, V>(
            a[i],
            column_of(b, j),
        )
}

/// Whether `m` can be the product of the rows `a` with the rows `b`: it has
/// a row for every row of `a`, as long as a row of `b`, and holds at row `i`
/// and column `j` a dot product of row `i` of `a` with column `j` of `b`.
pub open spec fn product_yields<S: Scalar, V: Vector<S>>(
    a: Seq<Seq<S>>,
    b: Seq<Seq<S>>,
    m: Seq<Seq<S>>,
) -> bool {
    &&& m.len() == a.len()
    &&& uniform(m, b[0].len() as int)
    &&& forall|i: int, j: int|
        0 <= i < a.len() && 0 <= j < b[0].len() ==> dot_yields::<S, V>(
            a[i],
            column_of(b, j),
            #[trigger] m[i][j],
        )
}

/// The product of the rows `a` with the rows `b`, for an exact lane type: at
/// row `i` and column `j` the dot product of row `i` of `a` with column `j`
/// of `b`.
pub open spec fn product<S: Scalar, V: Vector<S>>(a: Seq<Seq<S>>, b: Seq<Seq<S>>) -> Seq<Seq<S>> {
    Seq::new(
        a.len(),
        |i: int| Seq::new(b[0].len(), |j: int| dot_of::<S, V>(a[i], column_of(b, j))),
    )
}

/// For an exact lane type, the product of rows with at least one lane is
/// `product` and nothing else.
pub proof fn lemma_product_exact<S: Scalar, V: Vector<S>>(
    a: Seq<Seq<S>>,
    b: Seq<Seq<S>>,
    m: Seq<Seq<S>>,
)
    requires
        S::obeys_add_spec(),
        S::obeys_mul_spec(),
        forall|i: int| 0 <= i < a.len() ==> (#[trigger] a[i]).len() > 0,
        product_yields::<S, V>(a, b, m),
    ensures
        m == product::<S, V>(a, b),
{
    let wanted = product::<S, V>(a, b);
    assert forall|i: int| 0 <= i < m.len() implies m[i] == wanted[i] by {
        assert(m[i].len() == b[0].len());
        assert forall|j: int| 0 <= j < m[i].len() implies m[i][j] == wanted[i][j] by {
            assert(dot_yields::<S, V>(a[i], column_of(b, j), m[i][j]));
            lemma_dot_exact::<S, V>(a[i], column_of(b, j), m[i][j]);
        }
        assert(m[i] =~= wanted[i]);
    }
    assert(m =~= wanted);
}

/// What a representation of matrices must offer. Construction from rows, the
/// dimensions and access to a row or a column are its own; scaling, sum and
/// product follow from them and from the capabilities of its rows.
pub trait Matrix<S: Scalar>: Sized {
    /// The representation of a row or a column.
    type Line: Vector<S>;

    /// The lanes of the rows, in order.
    spec fn rows(&self) -> Seq<Seq<S>>;

    /// Whether the matrix is well formed.
    spec fn wf(&self) -> bool;

    /// A well-formed matrix has a row, and rows of one length.
    proof fn lemma_wf_rectangular(&self)
        requires
            self.wf(),
        ensures
            rectangular(self.rows()),
    ;

    /// The matrix of the given rows, if there is a row and all have the
    /// length of the first.
    fn from_vectors(input: Vec<Self::Line>) -> (r: Option<Self>)
        ensures
            match r {
                Some(m) => {
                    &&& rectangular(lines_of::<S, Self::Line>(input@))
                    &&& m.wf()
                    &&& m.rows() == lines_of::<S, Self::Line>(input@)
                },
                None => !rectangular(lines_of::<S, Self::Line>(input@)),
            },
    ;

    /// The number of rows, and the length of a row.
    fn dimensions(&self) -> (r: (usize, usize))
        requires
            self.wf(),
        ensures
            r.0 == self.rows().len(),
            r.1 == self.rows()[0].len(),
    ;

    /// The row at `index`, if there is one.
    fn row(&self, index: usize) -> (r: Option<Self::Line>)
        requires
            self.wf(),
        ensures
            match r {
                Some(line) => index < self.rows().len() && line.lanes() == self.rows()[index as int],
                None => index >= self.rows().len(),
            },
    ;

    /// The column at `index`, if there is one.
    fn column(&self, index: usize) -> (r: Option<Self::Line>)
        requires
            self.wf(),
        ensures
            match r {
                Some(line) => index < self.rows()[0].len() && line.lanes() == column_of(
                    self.rows(),
                    index as int,
                ),
                None => index >= self.rows()[0].len(),
            },
    ;

    /// Every row multiplied by `rhs`.
    fn scale(&self, rhs: S) -> (r: Self)
        requires
            self.wf(),
            rows_scalable(self.rows(), rhs),
        ensures
            r.wf(),
            rows_scaled_yield(self.rows(), rhs, r.rows()),
            S::obeys_mul_spec() ==> r.rows() == rows_scaled(self.rows(), rhs),
    {
        proof {
            self.lemma_wf_rectangular();
        }
        let (height, _) = self.dimensions();
        let mut lines: Vec<Self::Line> = Vec::with_capacity(height);
        let mut i: usize = 0;
        while i < height
            invariant
                self.wf(),
                rectangular(self.rows()),
                rows_scalable(self.rows(), rhs),
                height == self.rows().len(),
                i <= height,
                lines.len() == i,
                forall|q: int|
                    0 <= q < i ==> scaled_yields(
                        self.rows()[q],
                        rhs,
                        (#[trigger] lines@[q]).lanes(),
                    ),
            decreases height - i,
        {
            let row = self.row(i).unwrap();
            assert(scalable(self.rows()[i as int], rhs));
            let line = row.scale(rhs);
            lines.push(line);
            i += 1;
        }
        proof {
            let made = lines_of::<S, Self::Line>(lines@);
            let width = self.rows()[0].len() as int;
            assert forall|q: int| 0 <= q < made.len() implies (#[trigger] made[q]).len()
                == width by {
                assert(scaled_yields(self.rows()[q], rhs, lines@[q].lanes()));
            }
            assert forall|q: int| 0 <= q < self.rows().len() implies scaled_yields(
                #[trigger] self.rows()[q],
                rhs,
                made[q],
            ) by {
                assert(scaled_yields(self.rows()[q], rhs, lines@[q].lanes()));
            }
            if S::obeys_mul_spec() {
                assert forall|q: int| 0 <= q < made.len() implies made[q] == rows_scaled(
                    self.rows(),
                    rhs,
                )[q] by {
                    lemma_scaled_exact(self.rows()[q], rhs, made[q]);
                }
                assert(made =~= rows_scaled(self.rows(), rhs));
            }
        }
        Self::from_vectors(lines).unwrap()
    }

    /// The product with `rhs`, if a row of the matrix is as long as `rhs` is
    /// high: at row `i` and column `j` the dot product of row `i` of the
    /// matrix with column `j` of `rhs`.
    fn mul(self, rhs: Self) -> (r: Option<Self>)
        requires
            self.wf(),
            rhs.wf(),
            self.rows()[0].len() == rhs.rows().len() ==> product_defined::<S, Self::Line>(
                self.rows(),
                rhs.rows(),
            ),
        ensures
            r is Some <==> self.rows()[0].len() == rhs.rows().len(),
            r is Some ==> {
                &&& r->0.wf()
                &&& product_yields::<S, Self::Line>(self.rows(), rhs.rows(), r->0.rows())
                &&& S::obeys_add_spec() && S::obeys_mul_spec() ==> r->0.rows() == product::<
                    S,
                    Self::Line,
                >(self.rows(), rhs.rows())
            },
    {
        proof {
            self.lemma_wf_rectangular();
            rhs.lemma_wf_rectangular();
        }
        let (height, inner) = self.dimensions();
        let (rhs_height, width) = rhs.dimensions();
        if inner != rhs_height {
            return None;
        }
        let ghost a = self.rows();
        let ghost b = rhs.rows();
        let mut lines: Vec<Self::Line> = Vec::with_capacity(height);
        let mut i: usize = 0;
        while i < height
            invariant
                self.wf(),
                rhs.wf(),
                a == self.rows(),
                b == rhs.rows(),
                rectangular(a),
                rectangular(b),
                product_defined::<S, Self::Line>(a, b),
                height == a.len(),
                inner == a[0].len(),
                inner == b.len(),
                width == b[0].len(),
                i <= height,
                lines.len() == i,
                forall|q: int| 0 <= q < i ==> (#[trigger] lines@[q]).lanes().len() == width,
                forall|q: int, j: int|
                    0 <= q < i && 0 <= j < width ==> dot_yields::<S, Self::Line>(
                        a[q],
                        column_of(b, j),
                        #[trigger] lines@[q].lanes()[j],
                    ),
            decreases height - i,
        {
            let row = self.row(i).unwrap();
            let mut dots: Vec<S> = Vec::with_capacity(width);
            let mut j: usize = 0;
            while j < width
                invariant
                    rhs.wf(),
                    b == rhs.rows(),
                    rectangular(a),
                    rectangular(b),
                    product_defined::<S, Self::Line>(a, b),
                    inner == a[0].len(),
                    inner == b.len(),
                    width == b[0].len(),
                    i < a.len(),
                    row.lanes() == a[i as int],
                    j <= width,
                    dots.len() == j,
                    forall|q: int|
                        0 <= q < j ==> dot_yields::<S, Self::Line>(
                            a[i as int],
                            column_of(b, q),
                            #[trigger] dots@[q],
                        ),
                decreases width - j,
            {
                let column = rhs.column(j).unwrap();
                let copy = row.clone();
                proof {
                    row.lemma_clone_keeps_lanes(&copy);
                    assert(dot_defined::<S, Self::Line>(a[i as int], column_of(b, j as int)));
                }
                let d = copy.dot(column);
                dots.push(d);
                j += 1;
            }
            let line = Self::Line::from_vec(dots);
            proof {
                let grown = lines@.push(line);
                assert forall|q: int, j: int| 0 <= q < i + 1 && 0 <= j < width implies dot_yields::<
                    S,
                    Self::Line,
                >(a[q], column_of(b, j), #[trigger] grown[q].lanes()[j]) by {
                    if q < i {
                        assert(grown[q] == lines@[q]);
                        assert(dot_yields::<S, Self::Line>(
                            a[q],
                            column_of(b, j),
                            lines@[q].lanes()[j],
                        ));
                    } else {
                        assert(grown[q].lanes()[j] == dots@[j]);
                    }
                }
            }
            lines.push(line);
            i += 1;
        }
        proof {
            let made = lines_of::<S, Self::Line>(lines@);
            assert forall|q: int| 0 <= q < made.len() implies (#[trigger] made[q]).len()
                == width by {
                assert(lines@[q].lanes().len() == width);
            }
            assert forall|q: int, j: int| 0 <= q < a.len() && 0 <= j < b[0].len() implies dot_yields::<
                S,
                Self::Line,
            >(a[q], column_of(b, j), #[trigger] made[q][j]) by {
                assert(dot_yields::<S, Self::Line>(a[q], column_of(b, j), lines@[q].lanes()[j]));
            }
            assert(product_yields::<S, Self::Line>(a, b, made));
            if S::obeys_add_spec() && S::obeys_mul_spec() {
                assert forall|q: int| 0 <= q < a.len() implies (#[trigger] a[q]).len() > 0 by {
                    assert(a[q].len() == inner);
                }
                lemma_product_exact::<S, Self::Line>(a, b, made);
            }
        }
        Self::from_vectors(lines)
    }

    /// The sum with `rhs`, row by row, if both have the same dimensions.
    fn add(self, rhs: Self) -> (r: Option<Self>)
        requires
            self.wf(),
            rhs.wf(),
            self.rows().len() == rhs.rows().len() && self.rows()[0].len() == rhs.rows()[0].len()
                ==> rows_addable(self.rows(), rhs.rows()),
        ensures
            r is Some <==> self.rows().len() == rhs.rows().len() && self.rows()[0].len()
                == rhs.rows()[0].len(),
            r is Some ==> {
                &&& r->0.wf()
                &&& rows_added_yield(self.rows(), rhs.rows(), r->0.rows())
                &&& S::obeys_add_spec() ==> r->0.rows() == rows_added(self.rows(), rhs.rows())
            },
    {
        proof {
            self.lemma_wf_rectangular();
            rhs.lemma_wf_rectangular();
        }
        let (height, width) = self.dimensions();
        let (rhs_height, rhs_width) = rhs.dimensions();
        if height != rhs_height || width != rhs_width {
            return None;
        }
        let ghost a = self.rows();
        let ghost b = rhs.rows();
        let mut lines: Vec<Self::Line> = Vec::with_capacity(height);
        let mut i: usize = 0;
        while i < height
            invariant
                self.wf(),
                rhs.wf(),
                a == self.rows(),
                b == rhs.rows(),
                rectangular(a),
                rectangular(b),
                rows_addable(a, b),
                height == a.len(),
                height == b.len(),
                width == a[0].len(),
                width == b[0].len(),
                i <= height,
                lines.len() == i,
                forall|q: int|
                    0 <= q < i ==> lanewise_yields(
                        Operator::Add,
                        a[q],
                        b[q],
                        (#[trigger] lines@[q]).lanes(),
                    ),
            decreases height - i,
        {
            let left = self.row(i).unwrap();
            let right = rhs.row(i).unwrap();
            assert(lanewise_defined(Operator::Add, a[i as int], b[i as int]));
            let line = left.add(right);
            lines.push(line);
            i += 1;
        }
        proof {
            let made = lines_of::<S, Self::Line>(lines@);
            assert forall|q: int| 0 <= q < made.len() implies (#[trigger] made[q]).len()
                == width by {
                assert(lanewise_yields(Operator::Add, a[q], b[q], lines@[q].lanes()));
                assert(a[q].len() == width);
            }
            assert forall|q: int| 0 <= q < a.len() implies lanewise_yields(
                Operator::Add,
                #[trigger] a[q],
                b[q],
                made[q],
            ) by {
                assert(lanewise_yields(Operator::Add, a[q], b[q], lines@[q].lanes()));
            }
            if S::obeys_add_spec() {
                assert forall|q: int| 0 <= q < made.len() implies made[q] == rows_added(a, b)[q] by {
                    lemma_lanewise_exact(Operator::Add, a[q], b[q], made[q]);
                }
                assert(made =~= rows_added(a, b));
            }
        }
        Self::from_vectors(lines)
    }
}

} // verus!
