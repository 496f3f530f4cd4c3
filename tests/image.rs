use cvm_rs::dispatch::{classify_address, worker_count, Endpoint};
use cvm_rs::image::{bytes_to_pixels, downscale_thumbnail, pixels_to_bytes};

#[test]
fn pixel_bytes_are_little_endian() {
    assert_eq!(pixels_to_bytes(&[0xAABBCCDD, 0x01020304]), vec![0xDD, 0xCC, 0xBB, 0xAA, 0x04, 0x03, 0x02, 0x01]);
    assert_eq!(bytes_to_pixels(&[0xDD, 0xCC, 0xBB, 0xAA, 0x04, 0x03, 0x02, 0x01, 9]), vec![0xAABBCCDD, 0x01020304]);
    assert!(pixels_to_bytes(&[]).is_empty());
    assert!(bytes_to_pixels(&[1, 2, 3]).is_empty());
}

#[test]
fn downscale_resamples() {
    let px = vec![0xFF0000FFu32; 800 * 600];
    let out = downscale_thumbnail(&px, 800, 600).unwrap();
    assert_eq!(out.len(), 400 * 300 * 4);
    assert_ne!(out.len(), pixels_to_bytes(&px).len());
    assert_eq!(&out[0..4], &[0xFF, 0, 0, 0xFF]);
    assert!(downscale_thumbnail(&[], 0, 0).is_none());
    assert!(downscale_thumbnail(&[], 0, 10).is_none());
}

#[test]
fn worker_counts() {
    assert_eq!(worker_count(0), 4);
    assert_eq!(worker_count(7), 4);
    assert_eq!(worker_count(8), 1);
    assert_eq!(worker_count(64), 8);
}

#[test]
fn addresses() {
    assert!(matches!(classify_address(String::from("/tmp/vnc.sock")), Endpoint::Unix(p) if p == "/tmp/vnc.sock"));
    assert!(matches!(classify_address(String::from("localhost:5900")), Endpoint::Tcp(h) if h == "localhost:5900"));
    assert!(matches!(classify_address(String::new()), Endpoint::Tcp(h) if h.is_empty()));
}
