use rustlight::recons::{
    BaggingPoissonReconstruction, UniformPoissonReconstruction, WeightedPoissonReconstruction,
};
use rustlight::stencil::{neighbor_terms, uniform_weight, Axis};

#[test]
fn weighted_defaults_to_two_subsets() {
    let w = WeightedPoissonReconstruction::new(50);
    assert_eq!(w.iterations, 50);
    assert_eq!(w.need_variance_estimates(), Some(2));
    assert_eq!(w.selected_buffers(), vec![0, 1]);
}

#[test]
fn weighted_restricted_subsets() {
    let w = WeightedPoissonReconstruction::new(10).restrict_buffers(vec![0, 2, 3]);
    assert_eq!(w.iterations, 10);
    assert_eq!(w.need_variance_estimates(), Some(3));
    assert_eq!(w.selected_buffers(), vec![0, 2, 3]);
}

#[test]
fn uniform_needs_no_variance() {
    let u = UniformPoissonReconstruction { iterations: 5 };
    assert_eq!(u.need_variance_estimates(), None);
}

#[test]
fn bagging_leaves_one_out() {
    let b = BaggingPoissonReconstruction { iterations: 20, nb_buffers: 4 };
    assert_eq!(b.need_variance_estimates(), Some(4));
    assert_eq!(b.leave_one_out(0), vec![1, 2, 3]);
    assert_eq!(b.leave_one_out(2), vec![0, 1, 3]);
    assert_eq!(b.leave_one_out(3), vec![0, 1, 2]);
    let rs = b.reconstructions();
    assert_eq!(rs.len(), 4);
    assert_eq!(rs[1].selected_buffers(), vec![0, 2, 3]);
    assert_eq!(rs[1].need_variance_estimates(), Some(3));
    assert_eq!(rs[3].iterations, 20);
}

#[test]
fn stencil_interior_pixel() {
    let t = neighbor_terms(2, 3, 5, 6);
    assert_eq!(t.len(), 4);
    assert_eq!((t[0].x, t[0].y, t[0].grad_x, t[0].grad_y, t[0].subtract), (1, 3, 1, 3, false));
    assert_eq!(t[0].axis, Axis::X);
    assert_eq!((t[1].x, t[1].y, t[1].grad_x, t[1].grad_y, t[1].subtract), (3, 3, 2, 3, true));
    assert_eq!(t[1].axis, Axis::X);
    assert_eq!((t[2].x, t[2].y, t[2].grad_x, t[2].grad_y, t[2].subtract), (2, 2, 2, 2, false));
    assert_eq!(t[2].axis, Axis::Y);
    assert_eq!((t[3].x, t[3].y, t[3].grad_x, t[3].grad_y, t[3].subtract), (2, 4, 2, 3, true));
    assert_eq!(t[3].axis, Axis::Y);
    assert_eq!(uniform_weight(2, 3, 5, 6), 5);
}

#[test]
fn stencil_corner_and_single_pixel() {
    let t = neighbor_terms(0, 0, 3, 3);
    assert_eq!(t.len(), 2);
    assert_eq!((t[0].x, t[0].y, t[0].axis), (1, 0, Axis::X));
    assert_eq!((t[1].x, t[1].y, t[1].axis), (0, 1, Axis::Y));
    assert_eq!(uniform_weight(0, 0, 3, 3), 3);
    assert_eq!(uniform_weight(2, 2, 3, 3), 3);
    assert_eq!(uniform_weight(1, 0, 3, 3), 4);
    assert_eq!(neighbor_terms(0, 0, 1, 1).len(), 0);
    assert_eq!(uniform_weight(0, 0, 1, 1), 1);
}

/// One relaxation pass over integer images, driven by the stencil.
fn relax(img: &[Vec<i64>], gx: &[Vec<i64>], gy: &[Vec<i64>], w: u32, h: u32) -> Vec<Vec<(i64, u32)>> {
    let mut out = Vec::new();
    for y in 0..h {
        let mut row = Vec::new();
        for x in 0..w {
            let mut c = img[y as usize][x as usize];
            for t in neighbor_terms(x, y, w, h) {
                let g = match t.axis {
                    Axis::X => gx[t.grad_y as usize][t.grad_x as usize],
                    Axis::Y => gy[t.grad_y as usize][t.grad_x as usize],
                };
                c += img[t.y as usize][t.x as usize] + if t.subtract { -g } else { g };
            }
            row.push((c, uniform_weight(x, y, w, h)));
        }
        out.push(row);
    }
    out
}

#[test]
fn constant_image_is_fixed_point_without_gradients() {
    let (w, h) = (4u32, 3u32);
    let img = vec![vec![7i64; 4]; 3];
    let zero = vec![vec![0i64; 4]; 3];
    for row in relax(&img, &zero, &zero, w, h) {
        for (c, wt) in row {
            assert_eq!(c, 7 * wt as i64);
        }
    }
}

#[test]
fn consistent_gradients_keep_a_ramp() {
    // img(x, y) = x + 10 y; gradient_x = 1, gradient_y = 10 everywhere.
    let (w, h) = (4u32, 3u32);
    let img: Vec<Vec<i64>> = (0..3).map(|y| (0..4).map(|x| x + 10 * y).collect()).collect();
    let gx = vec![vec![1i64; 4]; 3];
    let gy = vec![vec![10i64; 4]; 3];
    let r = relax(&img, &gx, &gy, w, h);
    for y in 0..3usize {
        for x in 0..4usize {
            let (c, wt) = r[y][x];
            assert_eq!(c, img[y][x] * wt as i64);
        }
    }
}

#[test]
fn uniform_reconstruction_checkerboard() {
    let (w, h) = (8u32, 8u32);
    let mut r: Vec<Vec<f64>> =
        (0..h).map(|y| (0..w).map(|x| ((x + y) % 2) as f64).collect()).collect();
    for _ in 0..50 {
        let mut next = vec![vec![0.0f64; w as usize]; h as usize];
        for y in 0..h {
            for x in 0..w {
                let mut c = r[y as usize][x as usize];
                for t in neighbor_terms(x, y, w, h) {
                    // Both gradients are zero.
                    c += r[t.y as usize][t.x as usize];
                }
                next[y as usize][x as usize] = c / uniform_weight(x, y, w, h) as f64;
            }
        }
        r = next;
    }
    for row in &r {
        for v in row {
            assert!((v - 0.5).abs() < 1e-3);
        }
    }
}
