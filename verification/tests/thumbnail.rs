use lri_rs::codec::{PngColor, PngError};
use lri_rs::thumbnail::{
    encode_png, parse_camera_id, parse_camera_ids, png_data_url, subsample, subsample_step,
};
use lri_rs::types::CameraId;

#[test]
fn step_fits_longer_side_under_limit() {
    assert_eq!(subsample_step(4160, 3120, 160), 26);
    assert_eq!(subsample_step(161, 10, 160), 2);
    assert_eq!(subsample_step(160, 100, 160), 1);
    assert_eq!(subsample_step(0, 0, 160), 1);
}

#[test]
fn subsample_keeps_every_step_th_sample() {
    let data: Vec<u16> = (0..20).collect();
    let (out, w, h) = subsample(&data, 5, 4, 2);
    assert_eq!((w, h), (3, 2));
    assert_eq!(out, vec![0, 2, 4, 10, 12, 14]);
}

#[test]
fn subsample_step_one_is_identity() {
    let data: Vec<u16> = (0..12).collect();
    let (out, w, h) = subsample(&data, 4, 3, 1);
    assert_eq!((w, h), (4, 3));
    assert_eq!(out, data);
}

#[test]
fn camera_names_parse() {
    assert_eq!(parse_camera_id("A1"), Some(CameraId::A1));
    assert_eq!(parse_camera_id("B3"), Some(CameraId::B3));
    assert_eq!(parse_camera_id("C6"), Some(CameraId::C6));
    assert_eq!(parse_camera_id("A6"), None);
    assert_eq!(parse_camera_id("B0"), None);
    assert_eq!(parse_camera_id("a1"), None);
    assert_eq!(parse_camera_id("A12"), None);
    assert_eq!(parse_camera_id(""), None);
}

#[test]
fn every_module_name_reads_back() {
    let all = [
        CameraId::A1, CameraId::A2, CameraId::A3, CameraId::A4, CameraId::A5,
        CameraId::B1, CameraId::B2, CameraId::B3, CameraId::B4, CameraId::B5,
        CameraId::C1, CameraId::C2, CameraId::C3, CameraId::C4, CameraId::C5, CameraId::C6,
    ];
    for c in all {
        assert_eq!(parse_camera_id(c.name()), Some(c));
    }
}

#[test]
fn data_url_is_padded_standard_base64() {
    assert_eq!(png_data_url(b"Man"), "data:image/png;base64,TWFu");
    assert_eq!(png_data_url(b"Ma"), "data:image/png;base64,TWE=");
    assert_eq!(png_data_url(b"M"), "data:image/png;base64,TQ==");
    assert_eq!(png_data_url(b""), "data:image/png;base64,");
    assert_eq!(png_data_url(&[0xfb, 0xff, 0x00, 0x3e]), "data:image/png;base64,+/8APg==");
}

#[test]
fn encode_png_writes_a_grey_preview() {
    let bytes = encode_png(3, 2, &[1, 2, 3, 4, 5, 6], PngColor::Grayscale).unwrap();
    let mut reader = png::Decoder::new(&bytes[..]).read_info().unwrap();
    let mut buf = vec![0u8; reader.output_buffer_size()];
    let info = reader.next_frame(&mut buf).unwrap();
    assert_eq!((info.width, info.height, info.color_type), (3, 2, png::ColorType::Grayscale));
    assert_eq!(&buf[..info.buffer_size()], &[1, 2, 3, 4, 5, 6]);
    assert_eq!(encode_png(3, 2, &[1, 2, 3], PngColor::Rgb), Err(PngError::Encode));
}

#[test]
fn requested_module_names_are_parsed_in_order() {
    let names: Vec<String> = ["C2", "bogus", "A1", "A1"].iter().map(|s| s.to_string()).collect();
    assert_eq!(parse_camera_ids(&names), vec![CameraId::C2, CameraId::A1, CameraId::A1]);
}
