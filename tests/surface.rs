use cvm_rs::surface::{Surface, SurfaceError};
use cvm_rs::types::{Rect, Size};

#[test]
fn new_surface_is_empty() {
    let s = Surface::new();
    assert_eq!(s.size(), Size { width: 0, height: 0 });
    assert!(s.get_buffer().is_empty());
}

#[test]
fn resize_gives_zeroed_buffer() {
    let mut s = Surface::new();
    s.resize(Size { width: 7, height: 5 });
    assert_eq!(s.get_buffer().len(), 35);
    assert!(s.get_buffer().iter().all(|p| *p == 0));
    let r = Rect { x: 0, y: 0, width: 2, height: 2 };
    s.blit_buffer(r, &[1, 2, 3, 4]).unwrap();
    s.resize(Size { width: 3, height: 2 });
    assert_eq!(s.get_buffer(), &[0u32; 6][..]);
}

#[test]
fn blit_center_of_four_by_four() {
    let mut s = Surface::new();
    s.resize(Size { width: 4, height: 4 });
    let r = Rect { x: 1, y: 1, width: 2, height: 2 };
    assert_eq!(s.blit_buffer(r, &[0x00112233; 4]), Ok(()));
    let buf = s.get_buffer();
    for (i, p) in buf.iter().enumerate() {
        if i == 5 || i == 6 || i == 9 || i == 10 {
            assert_eq!(*p, 0xFF112233, "pixel {}", i);
        } else {
            assert_eq!(*p, 0x00000000, "pixel {}", i);
        }
    }
}

#[test]
fn blit_then_read_back_forces_alpha() {
    let mut s = Surface::new();
    s.resize(Size { width: 5, height: 3 });
    let r = Rect { x: 2, y: 1, width: 3, height: 2 };
    let data = [0x12345678, 0xAB000000, 0x00FFFFFF, 0x7F010203, 0, 0xFFFFFFFF];
    s.blit_buffer(r, &data).unwrap();
    let back = s.snapshot(r).unwrap();
    let want: Vec<u32> = data.iter().map(|p| (p & 0x00FF_FFFF) | 0xFF00_0000).collect();
    assert_eq!(back, want);
    assert_eq!(s.snapshot(Rect { x: 0, y: 0, width: 2, height: 3 }).unwrap(), vec![0; 6]);
}

#[test]
fn blit_out_of_bounds_leaves_buffer_unchanged() {
    let mut s = Surface::new();
    s.resize(Size { width: 4, height: 4 });
    s.blit_buffer(Rect { x: 0, y: 0, width: 1, height: 1 }, &[7]).unwrap();
    let before = s.get_buffer().to_vec();
    assert_eq!(s.blit_buffer(Rect { x: 3, y: 0, width: 2, height: 1 }, &[1, 2]), Err(SurfaceError::OutOfBounds));
    assert_eq!(s.blit_buffer(Rect { x: 0, y: 2, width: 1, height: 3 }, &[1, 2, 3]), Err(SurfaceError::OutOfBounds));
    assert_eq!(s.blit_buffer(Rect { x: 0, y: 0, width: 2, height: 2 }, &[1, 2, 3]), Err(SurfaceError::OutOfBounds));
    assert_eq!(
        s.blit_buffer(Rect { x: u32::MAX, y: 0, width: 2, height: 1 }, &[1, 2]),
        Err(SurfaceError::OutOfBounds)
    );
    assert_eq!(s.get_buffer(), &before[..]);
    assert_eq!(s.snapshot(Rect { x: 2, y: 2, width: 3, height: 1 }), Err(SurfaceError::OutOfBounds));
}

#[test]
fn blit_whole_surface_and_empty_rect() {
    let mut s = Surface::new();
    s.resize(Size { width: 2, height: 2 });
    assert_eq!(s.blit_buffer(Rect { x: 2, y: 2, width: 0, height: 0 }, &[]), Ok(()));
    s.blit_buffer(Rect { x: 0, y: 0, width: 2, height: 2 }, &[1, 2, 3, 4, 5]).unwrap();
    assert_eq!(s.get_buffer(), &[0xFF000001, 0xFF000002, 0xFF000003, 0xFF000004][..]);
}
