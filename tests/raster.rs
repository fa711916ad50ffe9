use spheres::raster::{Raster, RasterError, Rgb8};

fn px(red: u8, green: u8, blue: u8) -> Rgb8 {
    Rgb8 { red, green, blue }
}

#[test]
fn raster_refuses_empty_sizes() {
    assert!(matches!(Raster::new(0, 5), Err(RasterError::EmptyImage)));
    assert!(matches!(Raster::new(5, 0), Err(RasterError::EmptyImage)));
}

#[test]
fn raster_refuses_sizes_beyond_the_png_header() {
    assert!(matches!(Raster::new(1usize << 33, 1), Err(RasterError::TooLarge)));
    assert!(matches!(Raster::new(1, 1usize << 32), Err(RasterError::TooLarge)));
}

#[test]
fn raster_starts_black_and_unwritten() {
    let r = Raster::new(2, 3).unwrap();
    assert_eq!(r.width(), 2);
    assert_eq!(r.height(), 3);
    assert_eq!(r.bytes().len(), 18);
    assert!(r.bytes().iter().all(|b| *b == 0));
    assert!(!r.is_complete());
    assert!(!r.row_done(1));
}

#[test]
fn raster_rows_tile_the_buffer() {
    let r = Raster::new(4, 3).unwrap();
    let mut covered = vec![0u32; r.bytes().len()];
    for y in 0..3 {
        let (start, end) = r.row_span(y);
        assert_eq!(end - start, 12);
        for i in start..end {
            covered[i] += 1;
        }
    }
    assert!(covered.iter().all(|c| *c == 1));
}

#[test]
fn raster_set_row_writes_that_row_only() {
    let mut r = Raster::new(2, 2).unwrap();
    r.set_row(1, &vec![px(1, 2, 3), px(4, 5, 6)]);
    assert_eq!(r.bytes(), &vec![0, 0, 0, 0, 0, 0, 1, 2, 3, 4, 5, 6]);
    assert_eq!(r.pixel(1, 1), px(4, 5, 6));
    assert_eq!(r.pixel(0, 0), px(0, 0, 0));
    assert!(r.row_done(1));
    assert!(!r.row_done(0));
    assert!(!r.is_complete());
    r.set_row(0, &vec![px(255, 0, 0), px(0, 255, 0)]);
    assert!(r.is_complete());
    assert_eq!(r.pixel(0, 0), px(255, 0, 0));
}

#[test]
fn raster_encoding_waits_for_every_row() {
    let mut r = Raster::new(1, 2).unwrap();
    r.set_row(0, &vec![px(9, 9, 9)]);
    assert!(matches!(r.encode_png(), Err(RasterError::Incomplete)));
}

#[test]
fn raster_encodes_a_png_that_decodes_to_its_pixels() {
    let mut r = Raster::new(2, 1).unwrap();
    r.set_row(0, &vec![px(255, 0, 0), px(0, 128, 255)]);
    let file = r.encode_png().unwrap();
    assert_eq!(&file[..8], &[137, 80, 78, 71, 13, 10, 26, 10]);
    let decoder = png::Decoder::new(&file[..]);
    let (info, mut reader) = decoder.read_info().unwrap();
    assert_eq!((info.width, info.height), (2, 1));
    assert_eq!(info.color_type, png::ColorType::RGB);
    let mut buf = vec![0; info.buffer_size()];
    reader.next_frame(&mut buf).unwrap();
    assert_eq!(buf, vec![255, 0, 0, 0, 128, 255]);
}
