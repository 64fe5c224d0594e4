use vstd::prelude::*;

verus! {

/// Image axis along which a gradient is measured.
#[derive(Clone, Copy, Debug, PartialEq, Eq, Structural)]
pub enum Axis {
    X,
    Y,
}

/// One neighbour term of the screened Poisson relaxation at a pixel: the
/// neighbour's current value, plus or minus the gradient stored at
/// `(grad_x, grad_y)` along `axis`.
#[derive(Clone, Copy, Debug)]
pub struct NeighborTerm {
    pub x: u32,
    pub y: u32,
    pub grad_x: u32,
    pub grad_y: u32,
    pub axis: Axis,
    pub subtract: bool,
}

pub open spec fn term(x: int, y: int, gx: int, gy: int, axis: Axis, subtract: bool) -> Seq<
    NeighborTerm,
> {
    seq![NeighborTerm { x: x as u32, y: y as u32, grad_x: gx as u32, grad_y: gy as u32, axis, subtract }]
}

/// The neighbour terms of pixel `(x, y)` in a `width` by `height` image, in
/// the order left, right, up, down. Going left (up) the gradient of the
/// neighbour is added; going right (down) the gradient of the pixel itself
/// is subtracted.
pub open spec fn stencil(x: int, y: int, width: int, height: int) -> Seq<NeighborTerm> {
    (if x > 0 { term(x - 1, y, x - 1, y, Axis::X, false) } else { Seq::empty() })
    + (if x + 1 < width { term(x + 1, y, x, y, Axis::X, true) } else { Seq::empty() })
    + (if y > 0 { term(x, y - 1, x, y - 1, Axis::Y, false) } else { Seq::empty() })
    + (if y + 1 < height { term(x, y + 1, x, y, Axis::Y, true) } else { Seq::empty() })
}

/// The neighbour terms of pixel `(x, y)`.
pub fn neighbor_terms(x: u32, y: u32, width: u32, height: u32) -> (r: Vec<NeighborTerm>)
    requires
        x < width,
        y < height,
    ensures
        r@ == stencil(x as int, y as int, width as int, height as int),
        forall|k: int|
            0 <= k < r@.len() ==> #[trigger] r@[k].x < width && r@[k].y < height && r@[k].grad_x
                < width && r@[k].grad_y < height,
{
    let mut v: Vec<NeighborTerm> = Vec::new();
    if x > 0 {
        v.push(NeighborTerm { x: x - 1, y, grad_x: x - 1, grad_y: y, axis: Axis::X, subtract: false });
    }
    if x < width - 1 {
        v.push(NeighborTerm { x: x + 1, y, grad_x: x, grad_y: y, axis: Axis::X, subtract: true });
    }
    if y > 0 {
        v.push(NeighborTerm { x, y: y - 1, grad_x: x, grad_y: y - 1, axis: Axis::Y, subtract: false });
    }
    if y < height - 1 {
        v.push(NeighborTerm { x, y: y + 1, grad_x: x, grad_y: y, axis: Axis::Y, subtract: true });
    }
    assert(v@ =~= stencil(x as int, y as int, width as int, height as int));
    v
}

/// The weight that divides the uniform relaxation sum: one for the pixel
/// itself and one for each neighbour.
pub fn uniform_weight(x: u32, y: u32, width: u32, height: u32) -> (r: u32)
    requires
        x < width,
        y < height,
    ensures
        r == 1 + stencil(x as int, y as int, width as int, height as int).len(),
{
    let terms = neighbor_terms(x, y, width, height);
    1 + terms.len() as u32
}

/// Value of one neighbour term, images being given as functions of the pixel.
pub open spec fn term_value(
    t: NeighborTerm,
    img: spec_fn(int, int) -> int,
    grad_x: spec_fn(int, int) -> int,
    grad_y: spec_fn(int, int) -> int,
) -> int {
    let g = if t.axis == Axis::X {
        grad_x(t.grad_x as int, t.grad_y as int)
    } else {
        grad_y(t.grad_x as int, t.grad_y as int)
    };
    img(t.x as int, t.y as int) + (if t.subtract { -g } else { g })
}

pub open spec fn terms_sum(
    ts: Seq<NeighborTerm>,
    img: spec_fn(int, int) -> int,
    grad_x: spec_fn(int, int) -> int,
    grad_y: spec_fn(int, int) -> int,
) -> int
    decreases ts.len(),
{
    if ts.len() == 0 {
        0
    } else {
        terms_sum(ts.drop_last(), img, grad_x, grad_y) + term_value(ts.last(), img, grad_x, grad_y)
    }
}

/// Sum that one uniform relaxation pass divides by the weight at `(x, y)`.
pub open spec fn relax_numerator(
    img: spec_fn(int, int) -> int,
    grad_x: spec_fn(int, int) -> int,
    grad_y: spec_fn(int, int) -> int,
    x: int,
    y: int,
    width: int,
    height: int,
) -> int {
    img(x, y) + terms_sum(stencil(x, y, width, height), img, grad_x, grad_y)
}

proof fn lemma_terms_sum_constant(
    ts: Seq<NeighborTerm>,
    img: spec_fn(int, int) -> int,
    grad_x: spec_fn(int, int) -> int,
    grad_y: spec_fn(int, int) -> int,
    c: int,
)
    requires
        forall|i: int, j: int| #[trigger] img(i, j) == c,
        forall|i: int, j: int| #[trigger] grad_x(i, j) == 0,
        forall|i: int, j: int| #[trigger] grad_y(i, j) == 0,
    ensures
        terms_sum(ts, img, grad_x, grad_y) == c * ts.len(),
    decreases ts.len(),
{
    if ts.len() > 0 {
        lemma_terms_sum_constant(ts.drop_last(), img, grad_x, grad_y, c);
        assert(c * (ts.len() - 1) + c == c * ts.len()) by (nonlinear_arith);
    }
}

/// With both gradients zero everywhere, a constant image is a fixed point of
/// the uniform relaxation: at every pixel the sum equals the constant times
/// the weight, so dividing gives the constant back.
pub proof fn lemma_constant_is_fixed_point(
    img: spec_fn(int, int) -> int,
    grad_x: spec_fn(int, int) -> int,
    grad_y: spec_fn(int, int) -> int,
    c: int,
    x: int,
    y: int,
    width: int,
    height: int,
)
    requires
        0 <= x < width,
        0 <= y < height,
        forall|i: int, j: int| #[trigger] img(i, j) == c,
        forall|i: int, j: int| #[trigger] grad_x(i, j) == 0,
        forall|i: int, j: int| #[trigger] grad_y(i, j) == 0,
    ensures
        relax_numerator(img, grad_x, grad_y, x, y, width, height) == c * (1 + stencil(
            x,
            y,
            width,
            height,
        ).len()),
{
    let ts = stencil(x, y, width, height);
    lemma_terms_sum_constant(ts, img, grad_x, grad_y, c);
    assert(c + c * ts.len() == c * (1 + ts.len())) by (nonlinear_arith);
}

proof fn lemma_terms_sum_bounded(
    ts: Seq<NeighborTerm>,
    img: spec_fn(int, int) -> int,
    grad_x: spec_fn(int, int) -> int,
    grad_y: spec_fn(int, int) -> int,
    lo: int,
    hi: int,
)
    requires
        forall|i: int, j: int| lo <= #[trigger] img(i, j) <= hi,
        forall|i: int, j: int| #[trigger] grad_x(i, j) == 0,
        forall|i: int, j: int| #[trigger] grad_y(i, j) == 0,
    ensures
        lo * ts.len() <= terms_sum(ts, img, grad_x, grad_y) <= hi * ts.len(),
    decreases ts.len(),
{
    if ts.len() > 0 {
        lemma_terms_sum_bounded(ts.drop_last(), img, grad_x, grad_y, lo, hi);
        assert(lo * (ts.len() - 1) + lo == lo * ts.len()) by (nonlinear_arith);
        assert(hi * (ts.len() - 1) + hi == hi * ts.len()) by (nonlinear_arith);
    }
}

/// With both gradients zero everywhere, a uniform relaxation pass is an
/// averaging smoother: the sum at a pixel lies between the weight times the
/// image's least value and the weight times its greatest, so the new value
/// stays within the range of the old image.
pub proof fn lemma_zero_gradients_average(
    img: spec_fn(int, int) -> int,
    grad_x: spec_fn(int, int) -> int,
    grad_y: spec_fn(int, int) -> int,
    lo: int,
    hi: int,
    x: int,
    y: int,
    width: int,
    height: int,
)
    requires
        0 <= x < width,
        0 <= y < height,
        forall|i: int, j: int| lo <= #[trigger] img(i, j) <= hi,
        forall|i: int, j: int| #[trigger] grad_x(i, j) == 0,
        forall|i: int, j: int| #[trigger] grad_y(i, j) == 0,
    ensures
        lo * (1 + stencil(x, y, width, height).len()) <= relax_numerator(
            img,
            grad_x,
            grad_y,
            x,
            y,
            width,
            height,
        ) <= hi * (1 + stencil(x, y, width, height).len()),
{
    let ts = stencil(x, y, width, height);
    lemma_terms_sum_bounded(ts, img, grad_x, grad_y, lo, hi);
    assert(img(x, y) >= lo && img(x, y) <= hi);
    assert(lo + lo * ts.len() == lo * (1 + ts.len())) by (nonlinear_arith);
    assert(hi + hi * ts.len() == hi * (1 + ts.len())) by (nonlinear_arith);
}

} // verus!
