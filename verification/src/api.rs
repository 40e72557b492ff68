//! Per-module summaries of a capture and the labels its modes are shown with.

use vstd::prelude::*;

use crate::types::{
    camera_name, data_format_name, AwbMode, DataFormat, HdrMode, RawImage, SceneMode, SensorModel,
};

verus! {

/// What a capture says about one of its modules.
#[derive(Debug, Clone)]
pub struct CameraSummary {
    pub id: String,
    pub sensor: String,
    pub format: String,
    pub width: usize,
    pub height: usize,
    pub bayer_jpeg: bool,
}

/// Label of a sensor model.
pub open spec fn sensor_text(sensor: SensorModel) -> Seq<char> {
    match sensor {
        SensorModel::Ar1335 => "AR1335"@,
        SensorModel::Ar1335Mono => "AR1335 Mono"@,
        SensorModel::Unknown => "Unknown"@,
    }
}

/// Label of an HDR mode.
pub open spec fn hdr_text(mode: HdrMode) -> Seq<char> {
    match mode {
        HdrMode::NoHdr => "none"@,
        HdrMode::Default => "default"@,
        HdrMode::Natural => "natural"@,
        HdrMode::Surreal => "surreal"@,
    }
}

/// Label of a scene preset.
pub open spec fn scene_text(mode: SceneMode) -> Seq<char> {
    match mode {
        SceneMode::Portrait => "portrait"@,
        SceneMode::Landscape => "landscape"@,
        SceneMode::Sport => "sport"@,
        SceneMode::Macro => "macro"@,
        SceneMode::Night => "night"@,
        SceneMode::NoScene => "none"@,
    }
}

/// Label of a white-balance mode.
pub open spec fn awb_text(mode: AwbMode) -> Seq<char> {
    match mode {
        AwbMode::Auto => "auto"@,
        AwbMode::Daylight => "daylight"@,
    }
}

/// Summarize one module's frame.
pub fn camera_summary(img: &RawImage) -> (s: CameraSummary)
    ensures
        s.id@ == camera_name(img.camera),
        s.sensor@ == sensor_text(img.sensor),
        s.format@ == data_format_name(img.format),
        s.width == img.width,
        s.height == img.height,
        s.bayer_jpeg == (img.format == DataFormat::BayerJpeg),
{
    CameraSummary {
        id: String::from_str(img.camera.name()),
        sensor: sensor_label(img.sensor),
        format: String::from_str(img.format.name()),
        width: img.width,
        height: img.height,
        bayer_jpeg: match img.format {
            DataFormat::BayerJpeg => true,
            DataFormat::Packed10bpp => false,
        },
    }
}

/// Label of a sensor model, e.g. `"AR1335 Mono"`.
pub fn sensor_label(sensor: SensorModel) -> (s: String)
    ensures
        s@ == sensor_text(sensor),
{
    match sensor {
        SensorModel::Ar1335 => String::from_str("AR1335"),
        SensorModel::Ar1335Mono => String::from_str("AR1335 Mono"),
        SensorModel::Unknown => String::from_str("Unknown"),
    }
}

/// Label of an HDR mode, e.g. `"natural"`.
pub fn hdr_label(mode: HdrMode) -> (s: String)
    ensures
        s@ == hdr_text(mode),
{
    match mode {
        HdrMode::NoHdr => String::from_str("none"),
        HdrMode::Default => String::from_str("default"),
        HdrMode::Natural => String::from_str("natural"),
        HdrMode::Surreal => String::from_str("surreal"),
    }
}

/// Label of a scene preset, e.g. `"landscape"`.
pub fn scene_label(mode: SceneMode) -> (s: String)
    ensures
        s@ == scene_text(mode),
{
    match mode {
        SceneMode::Portrait => String::from_str("portrait"),
        SceneMode::Landscape => String::from_str("landscape"),
        SceneMode::Sport => String::from_str("sport"),
        SceneMode::Macro => String::from_str("macro"),
        SceneMode::Night => String::from_str("night"),
        SceneMode::NoScene => String::from_str("none"),
    }
}

/// Label of a white-balance mode, `"auto"` or `"daylight"`.
pub fn awb_label(mode: AwbMode) -> (s: String)
    ensures
        s@ == awb_text(mode),
{
    match mode {
        AwbMode::Auto => String::from_str("auto"),
        AwbMode::Daylight => String::from_str("daylight"),
    }
}

/// Different sensor models, HDR modes, scene presets and white-balance modes
/// read differently, so a summary's labels tell them apart.
pub proof fn lemma_labels_tell_modes_apart(
    s1: SensorModel,
    s2: SensorModel,
    h1: HdrMode,
    h2: HdrMode,
    c1: SceneMode,
    c2: SceneMode,
    a1: AwbMode,
    a2: AwbMode,
)
    ensures
        sensor_text(s1) == sensor_text(s2) ==> s1 == s2,
        hdr_text(h1) == hdr_text(h2) ==> h1 == h2,
        scene_text(c1) == scene_text(c2) ==> c1 == c2,
        awb_text(a1) == awb_text(a2) ==> a1 == a2,
{
    reveal_strlit("AR1335");
    reveal_strlit("AR1335 Mono");
    reveal_strlit("Unknown");
    reveal_strlit("none");
    reveal_strlit("default");
    reveal_strlit("natural");
    reveal_strlit("surreal");
    reveal_strlit("portrait");
    reveal_strlit("landscape");
    reveal_strlit("sport");
    reveal_strlit("macro");
    reveal_strlit("night");
    reveal_strlit("auto");
    reveal_strlit("daylight");
    if sensor_text(s1) == sensor_text(s2) {
        assert(sensor_text(s1).len() == sensor_text(s2).len());
    }
    if hdr_text(h1) == hdr_text(h2) {
        assert(hdr_text(h1).len() == hdr_text(h2).len());
        assert(hdr_text(h1)[0] == hdr_text(h2)[0]);
    }
    if scene_text(c1) == scene_text(c2) {
        assert(scene_text(c1).len() == scene_text(c2).len());
        assert(scene_text(c1)[0] == scene_text(c2)[0]);
    }
    if awb_text(a1) == awb_text(a2) {
        assert(awb_text(a1).len() == awb_text(a2).len());
    }
}

} // verus!
