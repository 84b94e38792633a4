use vnc::protocol::{Message, PixelFormat, Rect, S2C};
use vnc::server::FramebufferUpdate;
use vnc::Reader;

#[test]
fn raw_rectangle_encodes_to_the_documented_bytes() {
    let mut update = FramebufferUpdate::new(&PixelFormat::rgb8888());
    let pixels = vec![0x80u8; 8 * 8 * 4];
    update.add_raw_pixels(Rect { left: 0, top: 0, width: 8, height: 8 }, &pixels);
    assert_eq!(update.rectangles(), 1);
    let mut bytes = Vec::new();
    update.send_to(&mut bytes).unwrap();
    let mut expected = vec![0x00, 0x00, 0x00, 0x01];
    expected.extend_from_slice(&[0x00, 0x00, 0x00, 0x00, 0x00, 0x08, 0x00, 0x08, 0x00, 0x00, 0x00, 0x00]);
    expected.extend_from_slice(&[0x80; 256]);
    assert_eq!(bytes, expected);
    assert_eq!(bytes.len(), 4 + 12 + 256);
}

#[test]
fn empty_update_is_just_the_head() {
    let update = FramebufferUpdate::new(&PixelFormat::rgb8888());
    assert_eq!(update.rectangles(), 0);
    let mut bytes = vec![0x55];
    update.send_to(&mut bytes).unwrap();
    assert_eq!(bytes, vec![0x55, 0, 0, 0, 0]);
}

#[test]
fn copy_rect_carries_the_source_position() {
    let mut update = FramebufferUpdate::new(&PixelFormat::rgb8888());
    update.add_copy_rect(Rect::new(1, 2, 3, 4), 0x0506, 0x0708);
    let mut bytes = Vec::new();
    update.send_to(&mut bytes).unwrap();
    assert_eq!(bytes, vec![0, 0, 0, 1, 0, 1, 0, 2, 0, 3, 0, 4, 0, 0, 0, 1, 5, 6, 7, 8]);
}

#[test]
fn rectangles_keep_their_order() {
    let format = PixelFormat { bits_per_pixel: 16, ..PixelFormat::rgb8888() };
    let mut update = FramebufferUpdate::new(&format);
    assert_eq!(update.pixel_format(), format);
    update.add_raw_pixels(Rect::new(0, 0, 2, 1), &[1, 2, 3, 4]);
    update.add_copy_rect(Rect::new(9, 9, 1, 1), 0, 0);
    update.add_raw_pixels(Rect::new(5, 5, 0, 7), &[]);
    assert_eq!(update.rectangles(), 3);
    let mut bytes = Vec::new();
    update.send_to(&mut bytes).unwrap();
    let mut reader = Reader::new(&bytes);
    assert_eq!(S2C::read_from(&mut reader), Ok(S2C::FramebufferUpdate { count: 3 }));
    assert_eq!(
        &bytes[4..],
        &[
            0, 0, 0, 0, 0, 2, 0, 1, 0, 0, 0, 0, 1, 2, 3, 4, //
            0, 9, 0, 9, 0, 1, 0, 1, 0, 0, 0, 1, 0, 0, 0, 0, //
            0, 5, 0, 5, 0, 0, 0, 7, 0, 0, 0, 0
        ][..]
    );
}

#[test]
fn update_with_most_rectangles_encodes_without_overflow() {
    let mut update = FramebufferUpdate::new(&PixelFormat::rgb8888());
    for i in 0..65535u32 {
        update.add_copy_rect(Rect::new(0, 0, 1, 1), (i % 7) as u16, 0);
    }
    assert_eq!(update.rectangles(), 65535);
    let mut bytes = Vec::new();
    update.send_to(&mut bytes).unwrap();
    assert_eq!(&bytes[..4], &[0, 0, 0xFF, 0xFF]);
    assert_eq!(bytes.len(), 4 + 65535 * 16);
}
