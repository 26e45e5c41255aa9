use goldy_doom::image::{Image, ImageError, BLANK_PIXEL, MAX_IMAGE_SIZE, TRANSPARENT_PIXEL};
use goldy_doom::name::WadName;
use goldy_doom::types::WadTextureHeader;

fn image_from(width: usize, height: usize, pixels: &[u16]) -> Image {
    let mut img = Image::new(width, height).unwrap();
    for y in 0..height {
        for x in 0..width {
            let p = one_pixel(pixels[y * width + x]);
            img.blit(&p, [x as isize, y as isize], true);
        }
    }
    assert_eq!(img.pixels(), pixels);
    img
}

/// A 1x1 image holding `value`, which is a palette index, `BLANK_PIXEL` or
/// `TRANSPARENT_PIXEL`.
fn one_pixel(value: u16) -> Image {
    if value == BLANK_PIXEL {
        return Image::new(1, 1).unwrap();
    }
    if value == TRANSPARENT_PIXEL {
        return Image::from_buffer(&[1, 0, 1, 0, 0, 0, 0, 0, 12, 0, 0, 0, 255]).unwrap();
    }
    let buf = [1, 0, 1, 0, 0, 0, 0, 0, 12, 0, 0, 0, 0, 1, 0, value as u8, 0, 255];
    Image::from_buffer(&buf).unwrap()
}

#[test]
fn new_fills_blank() {
    let img = Image::new(3, 2).unwrap();
    assert_eq!(img.size(), [3, 2]);
    assert_eq!(img.num_pixels(), 6);
    assert_eq!(img.x_offset(), 0);
    assert_eq!(img.y_offset(), 0);
    assert!(img.pixels().iter().all(|&p| p == 0xff00));
}

#[test]
fn new_rejects_too_large() {
    assert_eq!(
        Image::new(MAX_IMAGE_SIZE + 1, 1).err(),
        Some(ImageError::TooLarge { width: 4097, height: 1 })
    );
    assert!(Image::new(MAX_IMAGE_SIZE, MAX_IMAGE_SIZE).is_ok());
}

#[test]
fn new_from_header_uses_size() {
    let header = WadTextureHeader {
        name: WadName::from_bytes(b"STARTAN3").unwrap(),
        masked: 0,
        width: 4,
        height: 5,
        column_directory: 0,
        num_patches: 1,
    };
    let img = Image::new_from_header(&header).unwrap();
    assert_eq!((img.width(), img.height()), (4, 5));
}

#[test]
fn from_buffer_decodes_posts() {
    // 2x3 patch, offsets (-1, 2); column 0 has a post of 2 pixels from row 1, column 1 a
    // post of 1 pixel from row 0.
    let buf: Vec<u8> = vec![
        2, 0, 3, 0, 0xff, 0xff, 2, 0, // header
        16, 0, 0, 0, 23, 0, 0, 0, // column offsets
        1, 2, 0, 7, 8, 0, 255, // column 0
        0, 1, 0, 9, 0, 255, // column 1
    ];
    let img = Image::from_buffer(&buf).unwrap();
    assert_eq!(img.size(), [2, 3]);
    assert_eq!(img.x_offset(), -1);
    assert_eq!(img.y_offset(), 2);
    assert_eq!(img.pixels(), &[TRANSPARENT_PIXEL, 9, 7, TRANSPARENT_PIXEL, 8, TRANSPARENT_PIXEL]);
    assert_eq!(img.into_pixels().len(), 6);
}

#[test]
fn from_buffer_errors() {
    assert_eq!(Image::from_buffer(&[1]).err(), Some(ImageError::MissingWidth));
    assert_eq!(Image::from_buffer(&[1, 0, 1]).err(), Some(ImageError::MissingHeight));
    assert_eq!(
        Image::from_buffer(&[0, 0x20, 1, 0]).err(),
        Some(ImageError::TooLarge { width: 8192, height: 1 })
    );
    assert_eq!(Image::from_buffer(&[1, 0, 1, 0, 0]).err(), Some(ImageError::MissingXOffset));
    assert_eq!(Image::from_buffer(&[1, 0, 1, 0, 0, 0, 0]).err(), Some(ImageError::MissingYOffset));
    assert_eq!(
        Image::from_buffer(&[1, 0, 1, 0, 0, 0, 0, 0, 12, 0]).err(),
        Some(ImageError::UnfinishedColumnHeader(0))
    );
    assert_eq!(
        Image::from_buffer(&[1, 0, 1, 0, 0, 0, 0, 0, 40, 0, 0, 0]).err(),
        Some(ImageError::InvalidColumnOffset { column: 0, offset: 40, size: 12 })
    );
    assert_eq!(
        Image::from_buffer(&[1, 0, 1, 0, 0, 0, 0, 0, 12, 0, 0, 0, 0, 1, 0, 5, 0]).err(),
        Some(ImageError::UnfinishedColumn(0))
    );
    assert_eq!(
        Image::from_buffer(&[1, 0, 1, 0, 0, 0, 0, 0, 12, 0, 0, 0, 0]).err(),
        Some(ImageError::MissingRunLength(0))
    );
    assert_eq!(
        Image::from_buffer(&[1, 0, 1, 0, 0, 0, 0, 0, 12, 0, 0, 0, 0, 2, 0, 5, 6, 0, 255]).err(),
        Some(ImageError::RunTooBig(0))
    );
    assert_eq!(
        Image::from_buffer(&[1, 0, 2, 0, 0, 0, 0, 0, 12, 0, 0, 0, 0, 2, 0, 5]).err(),
        Some(ImageError::MissingPixel(0))
    );
}

#[test]
fn blit_opaque_and_transparent() {
    let mut dest = image_from(3, 2, &[1, 2, 3, 4, 5, 6]);
    let src = image_from(2, 2, &[10, TRANSPARENT_PIXEL, BLANK_PIXEL, 13]);
    dest.blit(&src, [1, 0], false);
    assert_eq!(dest.pixels(), &[1, 10, 3, 4, 5, 13]);
    let mut dest2 = image_from(3, 2, &[1, 2, 3, 4, 5, 6]);
    dest2.blit(&src, [1, 0], true);
    assert_eq!(dest2.pixels(), &[1, 10, TRANSPARENT_PIXEL, 4, BLANK_PIXEL, 13]);
}

#[test]
fn blit_clips_negative_offset() {
    let mut dest = image_from(2, 2, &[1, 2, 3, 4]);
    let src = image_from(2, 2, &[10, 11, 12, 13]);
    dest.blit(&src, [-1, -1], true);
    assert_eq!(dest.pixels(), &[13, 2, 3, 4]);
}

#[test]
fn blit_outside_changes_nothing() {
    let mut dest = image_from(2, 2, &[1, 2, 3, 4]);
    let src = image_from(1, 1, &[9]);
    dest.blit(&src, [2, 0], true);
    dest.blit(&src, [0, 5], true);
    assert_eq!(dest.pixels(), &[1, 2, 3, 4]);
}

#[test]
fn blit_same_size_copies() {
    let mut dest = image_from(2, 2, &[1, 2, 3, 4]);
    let src = image_from(2, 2, &[TRANSPARENT_PIXEL, 11, 12, 13]);
    dest.blit(&src, [0, 0], true);
    assert_eq!(dest.pixels(), src.pixels());
}

#[test]
fn decoded_pixels_are_indices_or_transparent() {
    let buf: Vec<u8> = vec![
        2, 0, 2, 0, 0, 0, 0, 0, 16, 0, 0, 0, 22, 0, 0, 0, 0, 1, 0, 200, 0, 255, 1, 1, 0, 17, 0, 255,
    ];
    let img = Image::from_buffer(&buf).unwrap();
    assert_eq!(img.num_pixels(), img.width() * img.height());
    assert!(img.pixels().iter().all(|&p| p == TRANSPARENT_PIXEL || p < 256));
    assert_eq!(img.pixels(), &[200, TRANSPARENT_PIXEL, TRANSPARENT_PIXEL, 17]);
}

#[test]
fn blit_transparent_source_keeps_destination() {
    let mut dest = image_from(2, 2, &[1, 2, 3, 4]);
    let src = image_from(2, 2, &[TRANSPARENT_PIXEL, BLANK_PIXEL, TRANSPARENT_PIXEL, BLANK_PIXEL]);
    dest.blit(&src, [0, 1], false);
    assert_eq!(dest.pixels(), &[1, 2, 3, 4]);
}
