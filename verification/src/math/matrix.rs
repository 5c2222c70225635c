//! Transforms of points, vectors and normals.

use crate::arith;
use crate::arith::{
    compute, computes, measure_vector, minus, normalize_vector, over, plus, times, Op, TINY,
};
use crate::double;
use crate::math::point::Point3;
use crate::math::{Vec3, EPSILON, ONE, ZERO};
use vstd::prelude::*;

verus! {

/// A row of a matrix.
#[derive(Clone, Copy, Debug, PartialEq, Eq, Structural)]
pub struct Row {
    pub x: u64,
    pub y: u64,
    pub z: u64,
    pub w: u64,
}

/// A transform: its rows from the first to the last. Points are columns to its right.
#[derive(Clone, Copy, Debug, PartialEq, Eq, Structural)]
pub struct Matrix4 {
    pub a: Row,
    pub b: Row,
    pub c: Row,
    pub d: Row,
}

/// A row of a matrix.
pub open spec fn row(m: Matrix4, i: int) -> Row {
    if i == 0 {
        m.a
    } else if i == 1 {
        m.b
    } else if i == 2 {
        m.c
    } else {
        m.d
    }
}

/// An entry of a matrix.
pub open spec fn entry(m: Matrix4, i: int, j: int) -> u64 {
    let r = row(m, i);
    if j == 0 {
        r.x
    } else if j == 1 {
        r.y
    } else if j == 2 {
        r.z
    } else {
        r.w
    }
}

/// The rows, or the columns, without one: number `n` of them.
pub open spec fn other(left_out: int, n: int) -> int {
    if n < left_out {
        n
    } else {
        n + 1
    }
}

/// The product of three numbers.
pub open spec fn triple_product<F: Fn(Op, u64, u64) -> u64>(f: F, a: u64, b: u64, c: u64) -> u64 {
    arith::product(f, arith::product(f, a, b), c)
}

/// The cofactor that stands in row `i` and column `j` of the adjugate: the determinant of
/// the matrix without row `j` and column `i`, with the sign of a chessboard.
pub open spec fn cofactor<F: Fn(Op, u64, u64) -> u64>(f: F, m: Matrix4, i: int, j: int) -> u64 {
    let e = |r: int, c: int| entry(m, other(j, r), other(i, c));
    let p = triple_product(
        f,
        if (i + j) % 2 == 0 {
            e(0, 0)
        } else {
            double::negated(e(0, 0))
        },
        e(1, 1),
        e(2, 2),
    );
    let q = triple_product(f, e(0, 0), e(1, 2), e(2, 1));
    let r = triple_product(f, e(1, 0), e(0, 1), e(2, 2));
    let s = triple_product(f, e(1, 0), e(0, 2), e(2, 1));
    let t = triple_product(f, e(2, 0), e(0, 1), e(1, 2));
    let u = triple_product(f, e(2, 0), e(0, 2), e(1, 1));
    if (i + j) % 2 == 0 {
        arith::difference(
            f,
            arith::sum(f, arith::sum(f, arith::difference(f, arith::difference(f, p, q), r), s), t),
            u,
        )
    } else {
        arith::sum(
            f,
            arith::difference(f, arith::difference(f, arith::sum(f, arith::sum(f, p, q), r), s), t),
            u,
        )
    }
}

/// The determinant, along the first row.
pub open spec fn determinant<F: Fn(Op, u64, u64) -> u64>(f: F, m: Matrix4) -> u64 {
    let (p, q) = (cofactor(f, m, 0, 0), cofactor(f, m, 1, 0));
    let (r, s) = (cofactor(f, m, 2, 0), cofactor(f, m, 3, 0));
    arith::sum(
        f,
        arith::sum(
            f,
            arith::sum(f, arith::product(f, m.a.x, p), arith::product(f, m.a.y, q)),
            arith::product(f, m.a.z, r),
        ),
        arith::product(f, m.a.w, s),
    )
}

/// A row of the adjugate, each entry times a number.
pub open spec fn adjugate_row<F: Fn(Op, u64, u64) -> u64>(f: F, m: Matrix4, i: int, by: u64) -> Row {
    Row {
        x: arith::product(f, cofactor(f, m, i, 0), by),
        y: arith::product(f, cofactor(f, m, i, 1), by),
        z: arith::product(f, cofactor(f, m, i, 2), by),
        w: arith::product(f, cofactor(f, m, i, 3), by),
    }
}

/// The inverse: the adjugate over the determinant. Where that is next to nothing, there is
/// none.
pub open spec fn inverse_of<F: Fn(Op, u64, u64) -> u64>(f: F, m: Matrix4) -> Option<Matrix4> {
    let det = determinant(f, m);
    let by = arith::quotient(f, ONE, det);
    if double::below(double::magnitude(det), EPSILON) {
        None
    } else {
        Some(
            Matrix4 {
                a: adjugate_row(f, m, 0, by),
                b: adjugate_row(f, m, 1, by),
                c: adjugate_row(f, m, 2, by),
                d: adjugate_row(f, m, 3, by),
            },
        )
    }
}

/// A row times the first three coordinates.
pub open spec fn row_times<F: Fn(Op, u64, u64) -> u64>(f: F, r: Row, x: u64, y: u64, z: u64) -> u64 {
    arith::sum(
        f,
        arith::sum(f, arith::product(f, r.x, x), arith::product(f, r.y, y)),
        arith::product(f, r.z, z),
    )
}

/// A row times a point.
pub open spec fn row_at<F: Fn(Op, u64, u64) -> u64>(f: F, r: Row, p: Point3) -> u64 {
    arith::sum(f, row_times(f, r, p.x, p.y, p.z), r.w)
}

/// Where a point goes.
pub open spec fn point_of<F: Fn(Op, u64, u64) -> u64>(f: F, m: Matrix4, p: Point3) -> Point3 {
    let (x, y, z) = (row_at(f, m.a, p), row_at(f, m.b, p), row_at(f, m.c, p));
    let w = row_at(f, m.d, p);
    if double::below(double::magnitude(arith::difference(f, w, ONE)), EPSILON) {
        Point3::of(x, y, z)
    } else {
        Point3::of(arith::quotient(f, x, w), arith::quotient(f, y, w), arith::quotient(f, z, w))
    }
}

/// Where a vector goes.
pub open spec fn vector_of<F: Fn(Op, u64, u64) -> u64>(f: F, m: Matrix4, v: Vec3) -> Vec3 {
    Vec3::of(
        row_times(f, m.a, v.x, v.y, v.z),
        row_times(f, m.b, v.x, v.y, v.z),
        row_times(f, m.c, v.x, v.y, v.z),
    )
}

/// A vector times the transpose of the matrix.
pub open spec fn normal_of<F: Fn(Op, u64, u64) -> u64>(f: F, m: Matrix4, n: Vec3) -> Vec3 {
    Vec3::of(
        arith::sum(
            f,
            arith::sum(f, arith::product(f, m.a.x, n.x), arith::product(f, m.b.x, n.y)),
            arith::product(f, m.c.x, n.z),
        ),
        arith::sum(
            f,
            arith::sum(f, arith::product(f, m.a.y, n.x), arith::product(f, m.b.y, n.y)),
            arith::product(f, m.c.y, n.z),
        ),
        arith::sum(
            f,
            arith::sum(f, arith::product(f, m.a.z, n.x), arith::product(f, m.b.z, n.y)),
            arith::product(f, m.c.z, n.z),
        ),
    )
}

/// How much lengths change: the geometric mean along the axes.
pub open spec fn scale_of<F: Fn(Op, u64, u64) -> u64>(f: F, m: Matrix4) -> u64 {
    let x = arith::vector_length(f, vector_of(f, m, Vec3::of(ONE, ZERO, ZERO)));
    let y = arith::vector_length(f, vector_of(f, m, Vec3::of(ZERO, ONE, ZERO)));
    let z = arith::vector_length(f, vector_of(f, m, Vec3::of(ZERO, ZERO, ONE)));
    double::greater(
        arith::value(f, Op::CubeRoot, arith::product(f, arith::product(f, x, y), z), 0),
        TINY,
    )
}

/// An entry of a product.
pub open spec fn product_entry<F: Fn(Op, u64, u64) -> u64>(f: F, r: Row, m: Matrix4, j: int) -> u64 {
    let (a, b) = (entry(m, 0, j), entry(m, 1, j));
    let (c, d) = (entry(m, 2, j), entry(m, 3, j));
    arith::sum(
        f,
        arith::sum(
            f,
            arith::sum(
                f,
                arith::sum(f, ZERO, arith::product(f, r.x, a)),
                arith::product(f, r.y, b),
            ),
            arith::product(f, r.z, c),
        ),
        arith::product(f, r.w, d),
    )
}

/// A row of a product.
pub open spec fn product_row<F: Fn(Op, u64, u64) -> u64>(f: F, r: Row, m: Matrix4) -> Row {
    Row {
        x: product_entry(f, r, m, 0),
        y: product_entry(f, r, m, 1),
        z: product_entry(f, r, m, 2),
        w: product_entry(f, r, m, 3),
    }
}

/// The product: first the right transform, then the left one.
pub open spec fn product_of<F: Fn(Op, u64, u64) -> u64>(f: F, m: Matrix4, n: Matrix4) -> Matrix4 {
    Matrix4 {
        a: product_row(f, m.a, n),
        b: product_row(f, m.b, n),
        c: product_row(f, m.c, n),
        d: product_row(f, m.d, n),
    }
}

/// The sine and the cosine of an angle in degrees.
pub open spec fn turn<F: Fn(Op, u64, u64) -> u64>(f: F, angle: u64) -> (u64, u64) {
    let rad = arith::value(f, Op::Radians, angle, 0);
    (arith::value(f, Op::Sine, rad, 0), arith::value(f, Op::Cosine, rad, 0))
}

/// A turn by an angle whose sine and cosine are given, about an axis of length one.
pub open spec fn turned_about<F: Fn(Op, u64, u64) -> u64>(f: F, sin: u64, cos: u64, axis: Vec3) -> Matrix4 {
    let (x, y, z) = (axis.x, axis.y, axis.z);
    let rest = arith::difference(f, ONE, cos);
    Matrix4 {
        a: Row {
            x: arith::sum(f, cos, arith::product(f, arith::product(f, x, x), rest)),
            y: arith::difference(
                f,
                arith::product(f, arith::product(f, x, y), rest),
                arith::product(f, z, sin),
            ),
            z: arith::sum(
                f,
                arith::product(f, arith::product(f, x, z), rest),
                arith::product(f, y, sin),
            ),
            w: ZERO,
        },
        b: Row {
            x: arith::sum(
                f,
                arith::product(f, arith::product(f, y, x), rest),
                arith::product(f, z, sin),
            ),
            y: arith::sum(f, cos, arith::product(f, arith::product(f, y, y), rest)),
            z: arith::difference(
                f,
                arith::product(f, arith::product(f, y, z), rest),
                arith::product(f, x, sin),
            ),
            w: ZERO,
        },
        c: Row {
            x: arith::difference(
                f,
                arith::product(f, arith::product(f, z, x), rest),
                arith::product(f, y, sin),
            ),
            y: arith::sum(
                f,
                arith::product(f, arith::product(f, z, y), rest),
                arith::product(f, x, sin),
            ),
            z: arith::sum(f, cos, arith::product(f, arith::product(f, z, z), rest)),
            w: ZERO,
        },
        d: Row { x: ZERO, y: ZERO, z: ZERO, w: ONE },
    }
}

impl Matrix4 {
    /// The transform that leaves everything where it is.
    pub open spec fn identity_of() -> Matrix4 {
        Matrix4 {
            a: Row { x: ONE, y: ZERO, z: ZERO, w: ZERO },
            b: Row { x: ZERO, y: ONE, z: ZERO, w: ZERO },
            c: Row { x: ZERO, y: ZERO, z: ONE, w: ZERO },
            d: Row { x: ZERO, y: ZERO, z: ZERO, w: ONE },
        }
    }

    /// The transform that leaves everything where it is.
    pub fn identity() -> (r: Matrix4)
        ensures
            r == Matrix4::identity_of(),
    {
        Matrix4 {
            a: Row { x: ONE, y: ZERO, z: ZERO, w: ZERO },
            b: Row { x: ZERO, y: ONE, z: ZERO, w: ZERO },
            c: Row { x: ZERO, y: ZERO, z: ONE, w: ZERO },
            d: Row { x: ZERO, y: ZERO, z: ZERO, w: ONE },
        }
    }

    /// A move.
    pub open spec fn translate_of(x: u64, y: u64, z: u64) -> Matrix4 {
        Matrix4 {
            a: Row { x: ONE, y: ZERO, z: ZERO, w: x },
            b: Row { x: ZERO, y: ONE, z: ZERO, w: y },
            c: Row { x: ZERO, y: ZERO, z: ONE, w: z },
            d: Row { x: ZERO, y: ZERO, z: ZERO, w: ONE },
        }
    }

    /// A move.
    pub fn translate(x: u64, y: u64, z: u64) -> (r: Matrix4)
        ensures
            r == Matrix4::translate_of(x, y, z),
    {
        Matrix4 {
            a: Row { x: ONE, y: ZERO, z: ZERO, w: x },
            b: Row { x: ZERO, y: ONE, z: ZERO, w: y },
            c: Row { x: ZERO, y: ZERO, z: ONE, w: z },
            d: Row { x: ZERO, y: ZERO, z: ZERO, w: ONE },
        }
    }

    /// A change of lengths along the axes.
    pub open spec fn scale_of(x: u64, y: u64, z: u64) -> Matrix4 {
        Matrix4 {
            a: Row { x: x, y: ZERO, z: ZERO, w: ZERO },
            b: Row { x: ZERO, y: y, z: ZERO, w: ZERO },
            c: Row { x: ZERO, y: ZERO, z: z, w: ZERO },
            d: Row { x: ZERO, y: ZERO, z: ZERO, w: ONE },
        }
    }

    /// A change of lengths along the axes.
    pub fn scale(x: u64, y: u64, z: u64) -> (r: Matrix4)
        ensures
            r == Matrix4::scale_of(x, y, z),
    {
        Matrix4 {
            a: Row { x: x, y: ZERO, z: ZERO, w: ZERO },
            b: Row { x: ZERO, y: y, z: ZERO, w: ZERO },
            c: Row { x: ZERO, y: ZERO, z: z, w: ZERO },
            d: Row { x: ZERO, y: ZERO, z: ZERO, w: ONE },
        }
    }

    /// A turn about the x axis, by degrees.
    pub open spec fn rotate_x_of<F: Fn(Op, u64, u64) -> u64>(f: F, angle: u64) -> Matrix4 {
        let (sin, cos) = turn(f, angle);
        Matrix4 {
            a: Row { x: ONE, y: ZERO, z: ZERO, w: ZERO },
            b: Row { x: ZERO, y: cos, z: double::negated(sin), w: ZERO },
            c: Row { x: ZERO, y: sin, z: cos, w: ZERO },
            d: Row { x: ZERO, y: ZERO, z: ZERO, w: ONE },
        }
    }

    /// A turn about the x axis, by degrees.
    pub fn rotate_x<F: Fn(Op, u64, u64) -> u64>(angle: u64, f: &F) -> (r: Matrix4)
        requires
            computes(*f),
        ensures
            r == Matrix4::rotate_x_of(*f, angle),
    {
        let (sin, cos): (u64, u64) = find_turn(angle, f);
        Matrix4 {
            a: Row { x: ONE, y: ZERO, z: ZERO, w: ZERO },
            b: Row { x: ZERO, y: cos, z: double::negate(sin), w: ZERO },
            c: Row { x: ZERO, y: sin, z: cos, w: ZERO },
            d: Row { x: ZERO, y: ZERO, z: ZERO, w: ONE },
        }
    }

    /// A turn about the y axis, by degrees.
    pub open spec fn rotate_y_of<F: Fn(Op, u64, u64) -> u64>(f: F, angle: u64) -> Matrix4 {
        let (sin, cos) = turn(f, angle);
        Matrix4 {
            a: Row { x: cos, y: ZERO, z: sin, w: ZERO },
            b: Row { x: ZERO, y: ONE, z: ZERO, w: ZERO },
            c: Row { x: double::negated(sin), y: ZERO, z: cos, w: ZERO },
            d: Row { x: ZERO, y: ZERO, z: ZERO, w: ONE },
        }
    }

    /// A turn about the y axis, by degrees.
    pub fn rotate_y<F: Fn(Op, u64, u64) -> u64>(angle: u64, f: &F) -> (r: Matrix4)
        requires
            computes(*f),
        ensures
            r == Matrix4::rotate_y_of(*f, angle),
    {
        let (sin, cos): (u64, u64) = find_turn(angle, f);
        Matrix4 {
            a: Row { x: cos, y: ZERO, z: sin, w: ZERO },
            b: Row { x: ZERO, y: ONE, z: ZERO, w: ZERO },
            c: Row { x: double::negate(sin), y: ZERO, z: cos, w: ZERO },
            d: Row { x: ZERO, y: ZERO, z: ZERO, w: ONE },
        }
    }

    /// A turn about the z axis, by degrees.
    pub open spec fn rotate_z_of<F: Fn(Op, u64, u64) -> u64>(f: F, angle: u64) -> Matrix4 {
        let (sin, cos) = turn(f, angle);
        Matrix4 {
            a: Row { x: cos, y: double::negated(sin), z: ZERO, w: ZERO },
            b: Row { x: sin, y: cos, z: ZERO, w: ZERO },
            c: Row { x: ZERO, y: ZERO, z: ONE, w: ZERO },
            d: Row { x: ZERO, y: ZERO, z: ZERO, w: ONE },
        }
    }

    /// A turn about the z axis, by degrees.
    pub fn rotate_z<F: Fn(Op, u64, u64) -> u64>(angle: u64, f: &F) -> (r: Matrix4)
        requires
            computes(*f),
        ensures
            r == Matrix4::rotate_z_of(*f, angle),
    {
        let (sin, cos): (u64, u64) = find_turn(angle, f);
        Matrix4 {
            a: Row { x: cos, y: double::negate(sin), z: ZERO, w: ZERO },
            b: Row { x: sin, y: cos, z: ZERO, w: ZERO },
            c: Row { x: ZERO, y: ZERO, z: ONE, w: ZERO },
            d: Row { x: ZERO, y: ZERO, z: ZERO, w: ONE },
        }
    }

    /// A turn about an axis, by degrees.
    pub open spec fn rotate_of<F: Fn(Op, u64, u64) -> u64>(f: F, angle: u64, axis: Vec3) -> Matrix4 {
        let (sin, cos) = turn(f, angle);
        turned_about(f, sin, cos, arith::unit(f, axis))
    }

    /// A turn about an axis, by degrees.
    pub fn rotate<F: Fn(Op, u64, u64) -> u64>(angle: u64, x: u64, y: u64, z: u64, f: &F) -> (r: Matrix4)
        requires
            computes(*f),
        ensures
            r == Matrix4::rotate_of(*f, angle, Vec3::of(x, y, z)),
    {
        let axis: Vec3 = normalize_vector(f, Vec3::new(x, y, z));
        let (sin, cos): (u64, u64) = find_turn(angle, f);
        let (x, y, z): (u64, u64, u64) = (axis.x, axis.y, axis.z);
        let rest: u64 = minus(f, ONE, cos);
        Matrix4 {
            a: Row {
                x: plus(f, cos, times(f, times(f, x, x), rest)),
                y: minus(f, times(f, times(f, x, y), rest), times(f, z, sin)),
                z: plus(f, times(f, times(f, x, z), rest), times(f, y, sin)),
                w: ZERO,
            },
            b: Row {
                x: plus(f, times(f, times(f, y, x), rest), times(f, z, sin)),
                y: plus(f, cos, times(f, times(f, y, y), rest)),
                z: minus(f, times(f, times(f, y, z), rest), times(f, x, sin)),
                w: ZERO,
            },
            c: Row {
                x: minus(f, times(f, times(f, z, x), rest), times(f, y, sin)),
                y: plus(f, times(f, times(f, z, y), rest), times(f, x, sin)),
                z: plus(f, cos, times(f, times(f, z, z), rest)),
                w: ZERO,
            },
            d: Row { x: ZERO, y: ZERO, z: ZERO, w: ONE },
        }
    }

    /// The matrix with these rows.
    pub fn new(a: Row, b: Row, c: Row, d: Row) -> (r: Matrix4)
        ensures
            r.a == a && r.b == b && r.c == c && r.d == d,
    {
        Matrix4 { a, b, c, d }
    }

    /// The rows.
    pub fn rows(&self) -> (r: (Row, Row, Row, Row))
        ensures
            r == (self.a, self.b, self.c, self.d),
    {
        (self.a, self.b, self.c, self.d)
    }

    fn at(&self, i: usize, j: usize) -> (r: u64)
        ensures
            r == entry(*self, i as int, j as int),
    {
        let row: Row = if i == 0 {
            self.a
        } else if i == 1 {
            self.b
        } else if i == 2 {
            self.c
        } else {
            self.d
        };
        if j == 0 {
            row.x
        } else if j == 1 {
            row.y
        } else if j == 2 {
            row.z
        } else {
            row.w
        }
    }

    /// The inverse; `None` where the determinant is next to nothing.
    pub fn inverse<F: Fn(Op, u64, u64) -> u64>(&self, f: &F) -> (r: Option<Matrix4>)
        requires
            computes(*f),
        ensures
            r == inverse_of(*f, *self),
    {
        let p: u64 = find_cofactor(self, 0, 0, f);
        let q: u64 = find_cofactor(self, 1, 0, f);
        let r: u64 = find_cofactor(self, 2, 0, f);
        let s: u64 = find_cofactor(self, 3, 0, f);
        let det: u64 = plus(
            f,
            plus(f, plus(f, times(f, self.a.x, p), times(f, self.a.y, q)), times(f, self.a.z, r)),
            times(f, self.a.w, s),
        );
        if double::less(double::absolute(det), EPSILON) {
            return None;
        }
        let by: u64 = over(f, ONE, det);
        Some(
            Matrix4 {
                a: find_row(self, 0, by, f),
                b: find_row(self, 1, by, f),
                c: find_row(self, 2, by, f),
                d: find_row(self, 3, by, f),
            },
        )
    }

    /// Where a point goes.
    pub fn transform_point<F: Fn(Op, u64, u64) -> u64>(&self, p: &Point3, f: &F) -> (r: Point3)
        requires
            computes(*f),
        ensures
            r == point_of(*f, *self, *p),
    {
        let x: u64 = plus(f, times_row(&self.a, p.x, p.y, p.z, f), self.a.w);
        let y: u64 = plus(f, times_row(&self.b, p.x, p.y, p.z, f), self.b.w);
        let z: u64 = plus(f, times_row(&self.c, p.x, p.y, p.z, f), self.c.w);
        let w: u64 = plus(f, times_row(&self.d, p.x, p.y, p.z, f), self.d.w);
        if double::less(double::absolute(minus(f, w, ONE)), EPSILON) {
            Point3::new(x, y, z)
        } else {
            Point3::new(over(f, x, w), over(f, y, w), over(f, z, w))
        }
    }

    /// Where a vector goes.
    pub fn transform_vec<F: Fn(Op, u64, u64) -> u64>(&self, v: &Vec3, f: &F) -> (r: Vec3)
        requires
            computes(*f),
        ensures
            r == vector_of(*f, *self, *v),
    {
        Vec3::new(
            times_row(&self.a, v.x, v.y, v.z, f),
            times_row(&self.b, v.x, v.y, v.z, f),
            times_row(&self.c, v.x, v.y, v.z, f),
        )
    }

    /// A surface normal times the transpose. On the inverse of what moves the surface, this
    /// keeps normals at right angles to it under uneven scales.
    pub fn transform_normal<F: Fn(Op, u64, u64) -> u64>(&self, n: &Vec3, f: &F) -> (r: Vec3)
        requires
            computes(*f),
        ensures
            r == normal_of(*f, *self, *n),
    {
        Vec3::new(
            plus(
                f,
                plus(f, times(f, self.a.x, n.x), times(f, self.b.x, n.y)),
                times(f, self.c.x, n.z),
            ),
            plus(
                f,
                plus(f, times(f, self.a.y, n.x), times(f, self.b.y, n.y)),
                times(f, self.c.y, n.z),
            ),
            plus(
                f,
                plus(f, times(f, self.a.z, n.x), times(f, self.b.z, n.y)),
                times(f, self.c.z, n.z),
            ),
        )
    }

    /// How much lengths change on the whole.
    pub fn approx_scale<F: Fn(Op, u64, u64) -> u64>(&self, f: &F) -> (r: u64)
        requires
            computes(*f),
        ensures
            r == scale_of(*f, *self),
    {
        let x: u64 = measure_vector(f, self.transform_vec(&Vec3::new(ONE, ZERO, ZERO), f));
        let y: u64 = measure_vector(f, self.transform_vec(&Vec3::new(ZERO, ONE, ZERO), f));
        let z: u64 = measure_vector(f, self.transform_vec(&Vec3::new(ZERO, ZERO, ONE), f));
        double::larger_of(compute(f, Op::CubeRoot, times(f, times(f, x, y), z), 0), TINY)
    }

    /// The product with a matrix on the right.
    pub fn multiply<F: Fn(Op, u64, u64) -> u64>(&self, other: &Matrix4, f: &F) -> (r: Matrix4)
        requires
            computes(*f),
        ensures
            r == product_of(*f, *self, *other),
    {
        Matrix4 {
            a: multiply_row(&self.a, other, f),
            b: multiply_row(&self.b, other, f),
            c: multiply_row(&self.c, other, f),
            d: multiply_row(&self.d, other, f),
        }
    }
}

fn find_turn<F: Fn(Op, u64, u64) -> u64>(angle: u64, f: &F) -> (r: (u64, u64))
    requires
        computes(*f),
    ensures
        r == turn(*f, angle),
{
    let rad: u64 = compute(f, Op::Radians, angle, 0);
    (compute(f, Op::Sine, rad, 0), compute(f, Op::Cosine, rad, 0))
}

fn times_three<F: Fn(Op, u64, u64) -> u64>(a: u64, b: u64, c: u64, f: &F) -> (r: u64)
    requires
        computes(*f),
    ensures
        r == triple_product(*f, a, b, c),
{
    times(f, times(f, a, b), c)
}

fn pick(left_out: usize, n: usize) -> (r: usize)
    requires
        n < 3,
    ensures
        r == other(left_out as int, n as int),
{
    if n < left_out {
        n
    } else {
        n + 1
    }
}

fn find_cofactor<F: Fn(Op, u64, u64) -> u64>(m: &Matrix4, i: usize, j: usize, f: &F) -> (r: u64)
    requires
        computes(*f),
        i < 4,
        j < 4,
    ensures
        r == cofactor(*f, *m, i as int, j as int),
{
    let even: bool = (i + j) % 2 == 0;
    let (r0, r1, r2): (usize, usize, usize) = (pick(j, 0), pick(j, 1), pick(j, 2));
    let (c0, c1, c2): (usize, usize, usize) = (pick(i, 0), pick(i, 1), pick(i, 2));
    let first: u64 = m.at(r0, c0);
    let signed: u64 = if even {
        first
    } else {
        double::negate(first)
    };
    let p: u64 = times_three(signed, m.at(r1, c1), m.at(r2, c2), f);
    let q: u64 = times_three(first, m.at(r1, c2), m.at(r2, c1), f);
    let r: u64 = times_three(m.at(r1, c0), m.at(r0, c1), m.at(r2, c2), f);
    let s: u64 = times_three(m.at(r1, c0), m.at(r0, c2), m.at(r2, c1), f);
    let t: u64 = times_three(m.at(r2, c0), m.at(r0, c1), m.at(r1, c2), f);
    let u: u64 = times_three(m.at(r2, c0), m.at(r0, c2), m.at(r1, c1), f);
    if even {
        minus(f, plus(f, plus(f, minus(f, minus(f, p, q), r), s), t), u)
    } else {
        plus(f, minus(f, minus(f, plus(f, plus(f, p, q), r), s), t), u)
    }
}

fn find_row<F: Fn(Op, u64, u64) -> u64>(m: &Matrix4, i: usize, by: u64, f: &F) -> (r: Row)
    requires
        computes(*f),
        i < 4,
    ensures
        r == adjugate_row(*f, *m, i as int, by),
{
    Row {
        x: times(f, find_cofactor(m, i, 0, f), by),
        y: times(f, find_cofactor(m, i, 1, f), by),
        z: times(f, find_cofactor(m, i, 2, f), by),
        w: times(f, find_cofactor(m, i, 3, f), by),
    }
}

fn times_row<F: Fn(Op, u64, u64) -> u64>(r: &Row, x: u64, y: u64, z: u64, f: &F) -> (s: u64)
    requires
        computes(*f),
    ensures
        s == row_times(*f, *r, x, y, z),
{
    plus(f, plus(f, times(f, r.x, x), times(f, r.y, y)), times(f, r.z, z))
}

fn find_entry<F: Fn(Op, u64, u64) -> u64>(r: &Row, m: &Matrix4, j: usize, f: &F) -> (s: u64)
    requires
        computes(*f),
    ensures
        s == product_entry(*f, *r, *m, j as int),
{
    let (a, b): (u64, u64) = (m.at(0, j), m.at(1, j));
    let (c, d): (u64, u64) = (m.at(2, j), m.at(3, j));
    plus(
        f,
        plus(f, plus(f, plus(f, ZERO, times(f, r.x, a)), times(f, r.y, b)), times(f, r.z, c)),
        times(f, r.w, d),
    )
}

fn multiply_row<F: Fn(Op, u64, u64) -> u64>(r: &Row, m: &Matrix4, f: &F) -> (s: Row)
    requires
        computes(*f),
    ensures
        s == product_row(*f, *r, *m),
{
    Row {
        x: find_entry(r, m, 0, f),
        y: find_entry(r, m, 1, f),
        z: find_entry(r, m, 2, f),
        w: find_entry(r, m, 3, f),
    }
}

} // verus!
