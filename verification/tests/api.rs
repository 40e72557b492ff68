use lri_rs::api::{awb_label, camera_summary, hdr_label, scene_label, sensor_label};
use lri_rs::types::{AwbMode, CameraId, DataFormat, HdrMode, RawImage, SceneMode, SensorModel};

#[test]
fn labels_read_as_documented() {
    assert_eq!(sensor_label(SensorModel::Ar1335), "AR1335");
    assert_eq!(sensor_label(SensorModel::Ar1335Mono), "AR1335 Mono");
    assert_eq!(sensor_label(SensorModel::Unknown), "Unknown");
    assert_eq!(hdr_label(HdrMode::NoHdr), "none");
    assert_eq!(hdr_label(HdrMode::Surreal), "surreal");
    assert_eq!(scene_label(SceneMode::Landscape), "landscape");
    assert_eq!(scene_label(SceneMode::NoScene), "none");
    assert_eq!(awb_label(AwbMode::Daylight), "daylight");
}

#[test]
fn camera_summary_copies_frame_metadata() {
    let img = RawImage {
        camera: CameraId::B4,
        sensor: SensorModel::Ar1335Mono,
        format: DataFormat::BayerJpeg,
        width: 4160,
        height: 3120,
    };
    let s = camera_summary(&img);
    assert_eq!(s.id, "B4");
    assert_eq!(s.sensor, "AR1335 Mono");
    assert_eq!(s.format, "BayerJpeg");
    assert_eq!((s.width, s.height), (4160, 3120));
    assert!(s.bayer_jpeg);

    let packed = RawImage { format: DataFormat::Packed10bpp, ..img };
    let s = camera_summary(&packed);
    assert_eq!(s.format, "Packed10bpp");
    assert!(!s.bayer_jpeg);
}
