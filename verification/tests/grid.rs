use lri_rs::grid::{
    compose_grid, decode_png_gray, encode_rgba_png, render_grid, CellThumb,
};
use lri_rs::codec::PngError;
use lri_rs::image::{GrayImage, RgbaImage};
use lri_rs::types::CameraId;

fn png_of(w: u32, h: u32, color: png::ColorType, data: &[u8]) -> Vec<u8> {
    let mut buf = Vec::new();
    {
        let mut enc = png::Encoder::new(&mut buf, w, h);
        enc.set_color(color);
        enc.set_depth(png::BitDepth::Eight);
        let mut writer = enc.write_header().unwrap();
        writer.write_image_data(data).unwrap();
    }
    buf
}

fn empty_cells() -> Vec<CellThumb> {
    (0..16).map(|_| CellThumb { present: false, image: None }).collect()
}

#[test]
fn grid_has_a_cell_for_every_module() {
    let g = render_grid(None, &empty_cells());
    assert_eq!((g.width(), g.height()), (1016, 446));
    assert_eq!(g.get_pixel(0, 0), [28, 28, 32, 255]);
    // No preview: diagonal stripes in each image area.
    assert_eq!(g.get_pixel(8, 26), [40, 40, 42, 255]);
    assert_eq!(g.get_pixel(16, 26), [32, 32, 34, 255]);
    // Last cell of the last row (C6).
    assert_eq!(g.get_pixel(8 + 5 * 168, 8 + 2 * 146 + 18), [40, 40, 42, 255]);
    // Label "A1" in dim grey: top row of the A glyph starts one pixel in.
    assert_eq!(g.get_pixel(12, 10), [28, 28, 32, 255]);
    assert_eq!(g.get_pixel(13, 10), [100, 100, 110, 255]);
}

#[test]
fn reference_label_is_marked() {
    let g = render_grid(Some(CameraId::A1), &empty_cells());
    assert_eq!(g.get_pixel(13, 10), [120, 200, 255, 255]);
    // " ref": the 'r' glyph sits in the fourth slot.
    assert_eq!(g.get_pixel(12 + 3 * 8, 11), [120, 200, 255, 255]);
    let other = render_grid(Some(CameraId::B1), &empty_cells());
    assert_eq!(other.get_pixel(13, 10), [100, 100, 110, 255]);
    assert_eq!(other.get_pixel(12 + 3 * 8, 11), [28, 28, 32, 255]);
}

#[test]
fn preview_fills_its_cell() {
    let mut cells = empty_cells();
    cells[1] = CellThumb {
        present: true,
        image: Some(GrayImage::from_raw(2, 2, vec![10, 20, 30, 40]).unwrap()),
    };
    let g = render_grid(None, &cells);
    let (x0, y0) = (8 + 168, 8 + 18);
    assert_eq!(g.get_pixel(x0, y0), [10, 10, 10, 255]);
    assert_eq!(g.get_pixel(x0 + 159, y0), [20, 20, 20, 255]);
    assert_eq!(g.get_pixel(x0, y0 + 119), [30, 30, 30, 255]);
    assert_eq!(g.get_pixel(x0 + 80, y0 + 60), [40, 40, 40, 255]);
    // Present module: light grey label.
    assert_eq!(g.get_pixel(x0 + 5, 10), [220, 220, 220, 255]);
}

#[test]
fn compose_decodes_the_last_preview_per_module() {
    let first = png_of(1, 1, png::ColorType::Grayscale, &[50]);
    let second = png_of(1, 1, png::ColorType::Grayscale, &[90]);
    let colour = png_of(1, 1, png::ColorType::Rgb, &[1, 2, 3]);
    let thumbs = vec![
        (CameraId::A2, first),
        (CameraId::B1, colour),
        (CameraId::A2, second),
    ];
    let g = compose_grid(None, &thumbs);
    assert_eq!(g.get_pixel(8 + 168 + 10, 8 + 18 + 10), [90, 90, 90, 255]);
    // B1's preview is not grey: stripes, but its label shows it was supplied.
    let (bx, by) = (8, 8 + 146);
    assert_eq!(g.get_pixel(bx, by + 18), [40, 40, 42, 255]);
    assert_eq!(g.get_pixel(bx + 5, by + 2), [220, 220, 220, 255]);
}

#[test]
fn decode_png_gray_reports_each_failure() {
    assert_eq!(decode_png_gray(&[1, 2, 3]).err(), Some(PngError::Decode));
    let rgb = png_of(1, 1, png::ColorType::Rgb, &[1, 2, 3]);
    assert_eq!(decode_png_gray(&rgb).err(), Some(PngError::NotGrayscale));
    let gray = png_of(3, 1, png::ColorType::Grayscale, &[7, 8, 9]);
    let img = decode_png_gray(&gray).unwrap();
    assert_eq!((img.width(), img.height()), (3, 1));
    assert_eq!(img.as_raw(), &[7u8, 8, 9][..]);
}

#[test]
fn encode_rgba_png_round_trips() {
    let mut img = RgbaImage::filled(2, 1, [1, 2, 3, 4]);
    img.put_pixel(1, 0, [5, 6, 7, 8]);
    let bytes = encode_rgba_png(&img).unwrap();
    let mut reader = png::Decoder::new(&bytes[..]).read_info().unwrap();
    let mut buf = vec![0u8; reader.output_buffer_size()];
    let info = reader.next_frame(&mut buf).unwrap();
    assert_eq!((info.width, info.height, info.color_type), (2, 1, png::ColorType::Rgba));
    assert_eq!(&buf[..info.buffer_size()], &[1, 2, 3, 4, 5, 6, 7, 8]);
    assert_eq!(encode_rgba_png(&RgbaImage::filled(0, 3, [0; 4])).err(), Some(PngError::Encode));
}
