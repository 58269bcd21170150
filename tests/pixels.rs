use hwb::{ImageError, Pixels};

#[test]
fn new_buffers_are_white() {
    let p = Pixels::new(4, 3);
    assert_eq!(p.data().len(), 36);
    assert!(p.data().iter().all(|&b| b == 255));
    let q = Pixels::with_alpha(4, 3);
    assert_eq!(q.data().len(), 48);
    assert!(q.data().iter().all(|&b| b == 255));
}

#[test]
fn set_writes_one_pixel() {
    let mut p = Pixels::new(4, 3);
    p.set(2, 1, [1, 2, 3]);
    let i = (1 * 4 + 2) * 3;
    assert_eq!(&p.data()[i..i + 3], &[1, 2, 3]);
    assert_eq!(p.data().iter().filter(|&&b| b != 255).count(), 3);
}

#[test]
fn set_keeps_alpha() {
    let mut p = Pixels::with_alpha(2, 2);
    p.set(1, 1, [0, 0, 0]);
    assert_eq!(&p.data()[12..16], &[0, 0, 0, 255]);
}

#[test]
fn rect_includes_both_corners() {
    let mut p = Pixels::new(5, 5);
    p.rect(1, 1, 2, 2, [0, 0, 0]);
    for y in 0..5usize {
        for x in 0..5usize {
            let inside = (1..=3).contains(&x) && (1..=3).contains(&y);
            let i = (y * 5 + x) * 3;
            let expected = if inside { 0 } else { 255 };
            assert_eq!(p.data()[i], expected, "pixel {} {}", x, y);
        }
    }
}

#[test]
fn rect_is_clipped_to_the_buffer() {
    let mut p = Pixels::new(3, 2);
    p.rect(1, 0, u32::MAX, 10, [9, 9, 9]);
    for y in 0..2usize {
        for x in 0..3usize {
            let i = (y * 3 + x) * 3;
            assert_eq!(p.data()[i], if x >= 1 { 9 } else { 255 });
        }
    }
}

#[test]
fn png_stream_starts_with_the_signature() {
    let mut p = Pixels::new(2, 2);
    p.set(0, 0, [255, 0, 0]);
    let bytes = p.to_png().unwrap();
    assert_eq!(&bytes[..8], &[137, 80, 78, 71, 13, 10, 26, 10]);
    assert!(bytes.len() > 8 + 25);
    let rgba = Pixels::with_alpha(2, 2).to_png().unwrap();
    assert_ne!(bytes, rgba);
}

#[test]
fn every_non_empty_buffer_encodes() {
    assert!(Pixels::new(1, 1).to_png().is_ok());
    assert!(Pixels::with_alpha(7, 3).to_png().is_ok());
}

#[test]
fn empty_buffer_cannot_be_encoded() {
    assert_eq!(Pixels::new(0, 4).to_png(), Err(ImageError::Encoding));
}
