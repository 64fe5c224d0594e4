use rustlight::tools::{ModuloSignedExt, StepRangeInt};

#[test]
fn step_range_yields_start_then_steps() {
    let mut r = StepRangeInt::new(0, 10, 4);
    assert_eq!(r.next(), Some(0));
    assert_eq!(r.next(), Some(4));
    assert_eq!(r.next(), Some(8));
    assert_eq!(r.next(), None);
    assert_eq!(r.next(), None);
}

#[test]
fn step_range_empty_when_start_reaches_end() {
    let mut r = StepRangeInt::new(5, 5, 1);
    assert_eq!(r.next(), None);
    let r = StepRangeInt::new(7, 3, 2);
    assert_eq!(r.to_vec(), Vec::<usize>::new());
}

#[test]
fn step_range_to_vec_tiles() {
    let r = StepRangeInt::new(0, 100, 32);
    assert_eq!(r.to_vec(), vec![0, 32, 64, 96]);
}

#[test]
fn modulo_is_non_negative() {
    assert_eq!((-1i64).modulo(5), 4);
    assert_eq!((-5i64).modulo(5), 0);
    assert_eq!((-6i64).modulo(5), 4);
    assert_eq!(7i64.modulo(5), 2);
    assert_eq!(0i64.modulo(3), 0);
    assert_eq!(i64::MIN.modulo(i64::MAX), i64::MAX - 1);
}

use rustlight::driver::{continue_averaging, image_blocks, ImageBlock};

#[test]
fn blocks_cover_image_row_major() {
    let b = image_blocks(70, 40, 32);
    assert_eq!(b.len(), 6);
    assert_eq!(b[0], ImageBlock { x: 0, y: 0, width: 32, height: 32 });
    assert_eq!(b[1], ImageBlock { x: 32, y: 0, width: 32, height: 32 });
    assert_eq!(b[2], ImageBlock { x: 64, y: 0, width: 6, height: 32 });
    assert_eq!(b[3], ImageBlock { x: 0, y: 32, width: 32, height: 8 });
    assert_eq!(b[5], ImageBlock { x: 64, y: 32, width: 6, height: 8 });
    let covered: u32 = b.iter().map(|k| k.width * k.height).sum();
    assert_eq!(covered, 70 * 40);
}

#[test]
fn blocks_exact_fit_and_empty_image() {
    assert_eq!(image_blocks(64, 32, 32).len(), 2);
    assert_eq!(image_blocks(0, 10, 32).len(), 0);
    assert_eq!(image_blocks(1, 1, 32), vec![ImageBlock { x: 0, y: 0, width: 1, height: 1 }]);
}

#[test]
fn averaging_stops_on_budget_or_completion() {
    assert!(continue_averaging(None, 1_000_000, false));
    assert!(!continue_averaging(None, 0, true));
    assert!(continue_averaging(Some(10), 9, false));
    assert!(!continue_averaging(Some(10), 10, false));
    assert!(!continue_averaging(Some(10), 0, true));
}
