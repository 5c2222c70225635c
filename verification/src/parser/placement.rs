//! Where geometry stands: transforms as matrices, and the ends of what moves.

use crate::arith::{computes, Op};
use crate::math::matrix;
use crate::math::matrix::Row;
use crate::math::Matrix4;
use crate::parser::ast;
use crate::parser::interpreter::Interpreter;
use crate::parser::scene;
use crate::parser::scene::{Instance, MeshSource, Transform, TransformNode, TransformOp};
use crate::parser::scene_builder::{BuilderView, SceneBuilder};
use vstd::prelude::*;

verus! {

/// The matrix of sixteen numbers, given row by row for points that stand on its left.
pub open spec fn turned_over(m: Seq<u64>) -> Matrix4 {
    Matrix4 {
        a: Row { x: m[0], y: m[4], z: m[8], w: m[12] },
        b: Row { x: m[1], y: m[5], z: m[9], w: m[13] },
        c: Row { x: m[2], y: m[6], z: m[10], w: m[14] },
        d: Row { x: m[3], y: m[7], z: m[11], w: m[15] },
    }
}

/// The matrix of a request; the identity where it gives none.
pub open spec fn given_matrix(pool: Seq<ast::RequestView>, request: usize) -> Matrix4 {
    if request < pool.len() {
        match pool[request as int].numbers(0) {
            Some(m) => if m.len() == 16 {
                turned_over(m)
            } else {
                Matrix4::identity_of()
            },
            None => Matrix4::identity_of(),
        }
    } else {
        Matrix4::identity_of()
    }
}

/// A matrix after one more operation.
pub open spec fn operated<F: Fn(Op, u64, u64) -> u64>(
    f: F,
    pool: Seq<ast::RequestView>,
    m: Matrix4,
    op: TransformOp,
) -> Matrix4 {
    match op {
        TransformOp::Replace { request } => given_matrix(pool, request),
        TransformOp::Concat { request } => matrix::product_of(f, m, given_matrix(pool, request)),
        TransformOp::Translate { by } => matrix::product_of(
            f,
            m,
            Matrix4::translate_of(by.x, by.y, by.z),
        ),
        TransformOp::Rotate { angle, axis } => matrix::product_of(
            f,
            m,
            Matrix4::rotate_of(f, angle, axis),
        ),
        TransformOp::Scale { by } => matrix::product_of(
            f,
            m,
            Matrix4::scale_of(by.x, by.y, by.z),
        ),
    }
}

/// A transform as a matrix: its operations, one after the other, each multiplied on the right.
pub open spec fn matrix_of<F: Fn(Op, u64, u64) -> u64>(
    f: F,
    nodes: Seq<TransformNode>,
    pool: Seq<ast::RequestView>,
    t: Transform,
) -> Matrix4
    decreases (match t.node {
        Some(n) => n + 1,
        None => 0,
    }),
{
    match t.node {
        Some(n) if n < nodes.len() && is_earlier(nodes[n as int].parent, n) => operated(
            f,
            pool,
            matrix_of(f, nodes, pool, nodes[n as int].parent),
            nodes[n as int].op,
        ),
        _ => Matrix4::identity_of(),
    }
}

/// Whether a transform was made before node `n`.
pub open spec fn is_earlier(t: Transform, n: usize) -> bool {
    match t.node {
        Some(p) => p < n,
        None => true,
    }
}

/// A matrix after operations, the last of which comes first.
spec fn operated_on<F: Fn(Op, u64, u64) -> u64>(
    f: F,
    pool: Seq<ast::RequestView>,
    m: Matrix4,
    ops: Seq<TransformOp>,
) -> Matrix4
    decreases ops.len(),
{
    if ops.len() == 0 {
        m
    } else {
        operated_on(f, pool, operated(f, pool, m, ops.last()), ops.drop_last())
    }
}

/// Where the shutter closes for geometry whose transform is `current`: at the end of the motion
/// block, with what came after the block put on. None where the transform at its start has no
/// inverse.
pub open spec fn endpoint<F: Fn(Op, u64, u64) -> u64>(
    f: F,
    open: Matrix4,
    close: Matrix4,
    current: Matrix4,
) -> Option<Matrix4> {
    match matrix::inverse_of(f, open) {
        Some(back) => Some(
            matrix::product_of(f, close, matrix::product_of(f, back, current)),
        ),
        None => None,
    }
}

/// Where the shutter closes for geometry whose transform is `current`.
pub fn motion_endpoint<F: Fn(Op, u64, u64) -> u64>(
    open: &Matrix4,
    close: &Matrix4,
    current: &Matrix4,
    f: &F,
) -> (r: Option<Matrix4>)
    requires
        computes(*f),
    ensures
        r == endpoint(*f, *open, *close, *current),
{
    match open.inverse(f) {
        Some(back) => Some(close.multiply(&back.multiply(current, f), f)),
        None => None,
    }
}

/// The matrices of an instance at shutter open and, where it moves, at shutter close. Inside an
/// object its own transform is put on both.
pub open spec fn placed<F: Fn(Op, u64, u64) -> u64>(f: F, b: BuilderView, i: Instance) -> (
    Matrix4,
    Option<Matrix4>,
) {
    let (nodes, pool) = (b.graphics.nodes, b.pool);
    let current = matrix_of(f, nodes, pool, i.placement);
    let close = match i.motion {
        Some(m) => endpoint(
            f,
            matrix_of(f, nodes, pool, m.open),
            matrix_of(f, nodes, pool, m.close),
            current,
        ),
        None => None,
    };
    match i.local {
        Some(t) => {
            let local = matrix_of(f, nodes, pool, t);
            (
                matrix::product_of(f, current, local),
                match close {
                    Some(m) => Some(matrix::product_of(f, m, local)),
                    None => None,
                },
            )
        },
        None => (current, close),
    }
}

/// Whether the vertices of a mesh move.
pub open spec fn deforms(m: scene::MeshView) -> bool {
    m.source matches scene::MeshSourceView::Polygons(p) && p.positions1 is Some
}

/// Whether anything in a scene moves while the shutter is open.
pub open spec fn moves<F: Fn(Op, u64, u64) -> u64>(f: F, b: BuilderView) -> bool {
    ||| exists|i: int|
        0 <= i < b.graphics.instances.len() && placed(f, b, #[trigger] b.graphics.instances[i]).1
            is Some
    ||| exists|i: int| 0 <= i < b.graphics.meshes.len() && deforms(#[trigger] b.graphics.meshes[i])
}

impl SceneBuilder {
    fn find_given(&self, request: usize) -> (r: Matrix4)
        ensures
            r == given_matrix(self@.pool, request),
    {
        match self.request(request) {
            Some(q) => match q.numbers(0) {
                Some(m) => if m.len() == 16 {
                    Matrix4::new(
                        Row { x: m[0], y: m[4], z: m[8], w: m[12] },
                        Row { x: m[1], y: m[5], z: m[9], w: m[13] },
                        Row { x: m[2], y: m[6], z: m[10], w: m[14] },
                        Row { x: m[3], y: m[7], z: m[11], w: m[15] },
                    )
                } else {
                    Matrix4::identity()
                },
                None => Matrix4::identity(),
            },
            None => Matrix4::identity(),
        }
    }

    fn operate<F: Fn(Op, u64, u64) -> u64>(&self, m: &Matrix4, op: TransformOp, f: &F) -> (r: Matrix4)
        requires
            computes(*f),
        ensures
            r == operated(*f, self@.pool, *m, op),
    {
        match op {
            TransformOp::Replace { request } => self.find_given(request),
            TransformOp::Concat { request } => m.multiply(&self.find_given(request), f),
            TransformOp::Translate { by } => m.multiply(
                &Matrix4::translate(by.x, by.y, by.z),
                f,
            ),
            TransformOp::Rotate { angle, axis } => m.multiply(
                &Matrix4::rotate(angle, axis.x, axis.y, axis.z, f),
                f,
            ),
            TransformOp::Scale { by } => m.multiply(&Matrix4::scale(by.x, by.y, by.z), f),
        }
    }

    /// A transform of the scene as a matrix.
    pub fn matrix<F: Fn(Op, u64, u64) -> u64>(&self, t: Transform, f: &F) -> (r: Matrix4)
        requires
            computes(*f),
        ensures
            r == matrix_of(*f, self@.graphics.nodes, self@.pool, t),
    {
        let scene: &Interpreter = self.scene();
        let ghost (nodes, pool) = (self@.graphics.nodes, self@.pool);
        assert(scene.nodes@ == nodes);
        let mut ops: Vec<TransformOp> = Vec::new();
        let mut at: Transform = t;
        loop
            invariant
                scene.nodes@ == nodes,
                matrix_of(*f, nodes, pool, t) == operated_on(
                    *f,
                    pool,
                    matrix_of(*f, nodes, pool, at),
                    ops@,
                ),
            ensures
                matrix_of(*f, nodes, pool, at) == Matrix4::identity_of(),
            decreases (match at.node {
                Some(n) => n + 1,
                None => 0,
            }),
        {
            let n: usize = match at.node {
                Some(n) => n,
                None => {
                    break;
                },
            };
            if n >= scene.nodes.len() {
                break;
            }
            let node: TransformNode = scene.nodes[n];
            let earlier: bool = match node.parent.node {
                Some(p) => p < n,
                None => true,
            };
            if !earlier {
                break;
            }
            let ghost before = ops@;
            ops.push(node.op);
            at = node.parent;
            assert(ops@.drop_last() =~= before);
        }
        let mut m: Matrix4 = Matrix4::identity();
        while ops.len() > 0
            invariant
                computes(*f),
                pool == self@.pool,
                matrix_of(*f, nodes, pool, t) == operated_on(*f, pool, m, ops@),
            decreases ops@.len(),
        {
            let ghost before = ops@;
            match ops.pop() {
                Some(op) => {
                    assert(before.drop_last() =~= ops@);
                    m = self.operate(&m, op, f);
                },
                None => {},
            }
        }
        m
    }

    /// The matrices of an instance at shutter open and, where it moves, at shutter close.
    pub fn place<F: Fn(Op, u64, u64) -> u64>(&self, i: &Instance, f: &F) -> (r: (
        Matrix4,
        Option<Matrix4>,
    ))
        requires
            computes(*f),
        ensures
            r == placed(*f, self@, *i),
    {
        let current: Matrix4 = self.matrix(i.placement, f);
        let close: Option<Matrix4> = match i.motion {
            Some(m) => motion_endpoint(
                &self.matrix(m.open, f),
                &self.matrix(m.close, f),
                &current,
                f,
            ),
            None => None,
        };
        match i.local {
            Some(t) => {
                let local: Matrix4 = self.matrix(t, f);
                let moved: Option<Matrix4> = match close {
                    Some(m) => Some(m.multiply(&local, f)),
                    None => None,
                };
                (current.multiply(&local, f), moved)
            },
            None => (current, close),
        }
    }

    /// Whether anything in the scene moves while the shutter is open.
    pub fn has_motion<F: Fn(Op, u64, u64) -> u64>(&self, f: &F) -> (r: bool)
        requires
            computes(*f),
        ensures
            r == moves(*f, self@),
    {
        let scene: &Interpreter = self.scene();
        let ghost g = self@.graphics;
        assert(scene.instances@ == g.instances);
        let n: usize = scene.instances.len();
        let mut i: usize = 0;
        while i < n
            invariant
                i <= n == scene.instances@.len(),
                computes(*f),
                g == self@.graphics,
                scene.instances@ == g.instances,
                forall|k: int|
                    0 <= k < i ==> placed(*f, self@, #[trigger] g.instances[k]).1 is None,
            decreases n - i,
        {
            if self.place(&scene.instances[i], f).1.is_some() {
                assert(placed(*f, self@, g.instances[i as int]).1 is Some);
                return true;
            }
            i += 1;
        }
        let m: usize = scene.meshes.len();
        let mut j: usize = 0;
        while j < m
            invariant
                j <= m == scene.meshes@.len(),
                g == self@.graphics,
                g == scene@,
                forall|k: int| 0 <= k < j ==> !deforms(#[trigger] g.meshes[k]),
            decreases m - j,
        {
            assert(g.meshes[j as int] == scene.meshes@[j as int]@);
            let moving: bool = match &scene.meshes[j].source {
                MeshSource::Polygons(p) => p.positions1.is_some(),
                _ => false,
            };
            if moving {
                assert(deforms(g.meshes[j as int]));
                return true;
            }
            j += 1;
        }
        assert(g.meshes.len() == m);
        false
    }
}

} // verus!
