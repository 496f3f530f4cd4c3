use cvm_rs::types::{Rect, Size};

fn rect(x: u32, y: u32, width: u32, height: u32) -> Rect {
    Rect { x, y, width, height }
}

#[test]
fn bounding_union_of_scattered_rects() {
    let rects = vec![rect(10, 20, 10, 10), rect(500, 500, 10, 10), rect(980, 5, 10, 10)];
    let u = Rect::bounding_union(&rects);
    assert_eq!(u, rect(10, 5, 980, 505));
    for r in &rects {
        assert!(u.x <= r.x && u.y <= r.y);
        assert!(r.x + r.width <= u.x + u.width && r.y + r.height <= u.y + u.height);
    }
}

#[test]
fn batch_set_far_apart_on_large_surface() {
    let size = Size { width: 1000, height: 1000 };
    let mut rects = vec![rect(0, 0, 10, 10), rect(990, 0, 10, 10), rect(495, 990, 10, 10)];
    Rect::batch_set(&size, &mut rects);
    assert_eq!(rects, vec![rect(0, 0, 1000, 1000)]);
}

#[test]
fn bounding_union_single_is_identity() {
    let r = rect(3, 4, 5, 6);
    assert_eq!(Rect::bounding_union(&[r]), r);
    let mut rects = vec![r];
    Rect::batch_set(&Size { width: 10, height: 10 }, &mut rects);
    assert_eq!(rects, vec![r]);
}

#[test]
fn batch_set_empty_and_overlapping() {
    let size = Size { width: 100, height: 100 };
    let mut none: Vec<Rect> = vec![];
    Rect::batch_set(&size, &mut none);
    assert_eq!(none, vec![rect(100, 100, 0, 0)]);
    let mut rects = vec![rect(10, 10, 20, 20), rect(15, 5, 5, 40), rect(12, 12, 1, 1)];
    Rect::batch_set(&size, &mut rects);
    assert_eq!(rects, vec![rect(10, 5, 20, 40)]);
}

#[test]
fn linear_size() {
    assert_eq!(Size { width: 4, height: 3 }.linear(), 12);
    assert_eq!(Size { width: 0, height: 7 }.linear(), 0);
    assert_eq!(Size { width: 65535, height: 65535 }.linear(), 65535usize * 65535usize);
}

#[test]
fn batch_set_ignores_size_for_outside_rects() {
    let size = Size { width: 10, height: 10 };
    let mut rects = vec![rect(20, 20, 1, 1), rect(30, 30, 1, 1)];
    Rect::batch_set(&size, &mut rects);
    assert_eq!(rects, vec![rect(20, 20, 11, 11)]);
    let mut one = vec![rect(50, 60, 7, 8)];
    Rect::batch_set(&size, &mut one);
    assert_eq!(one, vec![rect(50, 60, 7, 8)]);
}
