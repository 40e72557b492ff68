use lri_rs::survey::{awb_style, flag_style, gain_style, hdr_tag, module_tag, scene_tag, TagStyle};
use lri_rs::types::{AwbMode, CameraId, DataFormat, HdrMode, RawImage, SceneMode, SensorModel};

#[test]
fn hdr_tags_tell_absent_from_off() {
    let absent = hdr_tag(None);
    assert_eq!((absent.text, absent.style), ("non", TagStyle::Dimmed));
    let off = hdr_tag(Some(HdrMode::NoHdr));
    assert_eq!((off.text, off.style), ("nop", TagStyle::Dimmed));
    let default = hdr_tag(Some(HdrMode::Default));
    assert_eq!((default.text, default.style), ("hdr", TagStyle::Plain));
    let natural = hdr_tag(Some(HdrMode::Natural));
    assert_eq!((natural.text, natural.style), ("nat", TagStyle::BrightGreen));
    let surreal = hdr_tag(Some(HdrMode::Surreal));
    assert_eq!((surreal.text, surreal.style), ("sur", TagStyle::BrightMagenta));
}

#[test]
fn scene_tags_are_abbreviations() {
    let cases = [
        (None, "non", TagStyle::Dimmed),
        (Some(SceneMode::NoScene), "nop", TagStyle::Dimmed),
        (Some(SceneMode::Portrait), "prt", TagStyle::Plain),
        (Some(SceneMode::Landscape), "lnd", TagStyle::Plain),
        (Some(SceneMode::Macro), "mcr", TagStyle::Plain),
        (Some(SceneMode::Sport), "spt", TagStyle::Plain),
        (Some(SceneMode::Night), "ni ", TagStyle::Plain),
    ];
    for (scene, text, style) in cases {
        let t = scene_tag(scene);
        assert_eq!((t.text, t.style), (text, style));
    }
}

#[test]
fn flag_awb_and_gain_colours() {
    assert_eq!(flag_style(None), TagStyle::Dimmed);
    assert_eq!(flag_style(Some(false)), TagStyle::Red);
    assert_eq!(flag_style(Some(true)), TagStyle::Green);
    assert_eq!(awb_style(None), TagStyle::Dimmed);
    assert_eq!(awb_style(Some(AwbMode::Auto)), TagStyle::White);
    assert_eq!(awb_style(Some(AwbMode::Daylight)), TagStyle::Yellow);
    assert_eq!(gain_style(true), TagStyle::White);
    assert_eq!(gain_style(false), TagStyle::Dimmed);
}

#[test]
fn module_tag_names_sensor_and_colours_format() {
    let mono = RawImage {
        camera: CameraId::C2,
        sensor: SensorModel::Ar1335Mono,
        format: DataFormat::Packed10bpp,
        width: 4160,
        height: 3120,
    };
    let t = module_tag(&mono);
    assert_eq!((t.text, t.style), ("a1m", TagStyle::Yellow));
    let colour = RawImage { sensor: SensorModel::Ar1335, format: DataFormat::BayerJpeg, ..mono };
    let t = module_tag(&colour);
    assert_eq!((t.text, t.style), ("a13", TagStyle::Cyan));
    let unknown = RawImage { sensor: SensorModel::Unknown, ..mono };
    assert_eq!(module_tag(&unknown).text, "???");
}

#[test]
fn tags_are_three_wide() {
    let hdrs = [None, Some(HdrMode::NoHdr), Some(HdrMode::Default), Some(HdrMode::Natural), Some(HdrMode::Surreal)];
    for h in hdrs {
        assert_eq!(hdr_tag(h).text.chars().count(), 3);
    }
    let scenes = [
        None,
        Some(SceneMode::NoScene),
        Some(SceneMode::Portrait),
        Some(SceneMode::Landscape),
        Some(SceneMode::Macro),
        Some(SceneMode::Sport),
        Some(SceneMode::Night),
    ];
    for s in scenes {
        assert_eq!(scene_tag(s).text.chars().count(), 3);
    }
}
