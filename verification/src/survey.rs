//! The short tags of the folder survey line: which three-letter tag each
//! capture setting and module sensor is shown with, and in which colour.

use vstd::prelude::*;

use crate::types::{AwbMode, DataFormat, HdrMode, RawImage, SceneMode, SensorModel};

verus! {

/// How a survey tag is drawn on a terminal.
#[derive(Debug, Clone, Copy, PartialEq, Eq, Structural)]
pub enum TagStyle {
    Plain,
    Dimmed,
    Red,
    Green,
    BrightGreen,
    BrightMagenta,
    White,
    Yellow,
    Cyan,
}

/// A survey tag and how it is drawn.
#[derive(Debug, Clone, Copy)]
pub struct Tag {
    pub text: &'static str,
    pub style: TagStyle,
}

/// Tag of the HDR setting: `non` when the capture records none, `nop` when
/// HDR was off, otherwise `hdr`, `nat` or `sur`.
pub open spec fn hdr_tag_text(hdr: Option<HdrMode>) -> Seq<char> {
    match hdr {
        None => "non"@,
        Some(HdrMode::NoHdr) => "nop"@,
        Some(HdrMode::Default) => "hdr"@,
        Some(HdrMode::Natural) => "nat"@,
        Some(HdrMode::Surreal) => "sur"@,
    }
}

/// Colour of the HDR tag: dimmed when absent or off, bright green for
/// natural, bright magenta for surreal.
pub open spec fn hdr_tag_style(hdr: Option<HdrMode>) -> TagStyle {
    match hdr {
        None => TagStyle::Dimmed,
        Some(HdrMode::NoHdr) => TagStyle::Dimmed,
        Some(HdrMode::Default) => TagStyle::Plain,
        Some(HdrMode::Natural) => TagStyle::BrightGreen,
        Some(HdrMode::Surreal) => TagStyle::BrightMagenta,
    }
}

/// Tag of the scene preset: `non` when the capture records none, `nop` for no
/// preset, otherwise a three-letter abbreviation (`ni ` for night).
pub open spec fn scene_tag_text(scene: Option<SceneMode>) -> Seq<char> {
    match scene {
        None => "non"@,
        Some(SceneMode::NoScene) => "nop"@,
        Some(SceneMode::Portrait) => "prt"@,
        Some(SceneMode::Landscape) => "lnd"@,
        Some(SceneMode::Macro) => "mcr"@,
        Some(SceneMode::Sport) => "spt"@,
        Some(SceneMode::Night) => "ni "@,
    }
}

/// Colour of the scene tag: dimmed when absent or no preset, plain otherwise.
pub open spec fn scene_tag_style(scene: Option<SceneMode>) -> TagStyle {
    match scene {
        None => TagStyle::Dimmed,
        Some(SceneMode::NoScene) => TagStyle::Dimmed,
        Some(_) => TagStyle::Plain,
    }
}

/// Colour of a yes/no flag such as "on tripod" or "focus achieved": dimmed
/// when unknown, red for no, green for yes.
pub open spec fn flag_tag_style(flag: Option<bool>) -> TagStyle {
    match flag {
        None => TagStyle::Dimmed,
        Some(false) => TagStyle::Red,
        Some(true) => TagStyle::Green,
    }
}

/// Colour of the white-balance tag: dimmed when unknown, white for auto,
/// yellow for daylight.
pub open spec fn awb_tag_style(awb: Option<AwbMode>) -> TagStyle {
    match awb {
        None => TagStyle::Dimmed,
        Some(AwbMode::Auto) => TagStyle::White,
        Some(AwbMode::Daylight) => TagStyle::Yellow,
    }
}

/// Tag of a module's sensor: `a13`, `a1m` for the mono variant, `???` when
/// unknown.
pub open spec fn sensor_tag_text(sensor: SensorModel) -> Seq<char> {
    match sensor {
        SensorModel::Ar1335 => "a13"@,
        SensorModel::Ar1335Mono => "a1m"@,
        SensorModel::Unknown => "???"@,
    }
}

/// Colour of a module's tag, by storage format: cyan for Bayer JPEG, yellow
/// for packed 10-bit.
pub open spec fn format_tag_style(format: DataFormat) -> TagStyle {
    match format {
        DataFormat::BayerJpeg => TagStyle::Cyan,
        DataFormat::Packed10bpp => TagStyle::Yellow,
    }
}

/// The HDR tag of a capture.
pub fn hdr_tag(hdr: Option<HdrMode>) -> (t: Tag)
    ensures
        t.text@ == hdr_tag_text(hdr),
        t.style == hdr_tag_style(hdr),
{
    match hdr {
        None => Tag { text: "non", style: TagStyle::Dimmed },
        Some(HdrMode::NoHdr) => Tag { text: "nop", style: TagStyle::Dimmed },
        Some(HdrMode::Default) => Tag { text: "hdr", style: TagStyle::Plain },
        Some(HdrMode::Natural) => Tag { text: "nat", style: TagStyle::BrightGreen },
        Some(HdrMode::Surreal) => Tag { text: "sur", style: TagStyle::BrightMagenta },
    }
}

/// The scene tag of a capture.
pub fn scene_tag(scene: Option<SceneMode>) -> (t: Tag)
    ensures
        t.text@ == scene_tag_text(scene),
        t.style == scene_tag_style(scene),
{
    match scene {
        None => Tag { text: "non", style: TagStyle::Dimmed },
        Some(SceneMode::NoScene) => Tag { text: "nop", style: TagStyle::Dimmed },
        Some(SceneMode::Portrait) => Tag { text: "prt", style: TagStyle::Plain },
        Some(SceneMode::Landscape) => Tag { text: "lnd", style: TagStyle::Plain },
        Some(SceneMode::Macro) => Tag { text: "mcr", style: TagStyle::Plain },
        Some(SceneMode::Sport) => Tag { text: "spt", style: TagStyle::Plain },
        Some(SceneMode::Night) => Tag { text: "ni ", style: TagStyle::Plain },
    }
}

/// Colour of a yes/no flag tag.
pub fn flag_style(flag: Option<bool>) -> (s: TagStyle)
    ensures
        s == flag_tag_style(flag),
{
    match flag {
        None => TagStyle::Dimmed,
        Some(false) => TagStyle::Red,
        Some(true) => TagStyle::Green,
    }
}

/// Colour of the white-balance tag.
pub fn awb_style(awb: Option<AwbMode>) -> (s: TagStyle)
    ensures
        s == awb_tag_style(awb),
{
    match awb {
        None => TagStyle::Dimmed,
        Some(AwbMode::Auto) => TagStyle::White,
        Some(AwbMode::Daylight) => TagStyle::Yellow,
    }
}

/// Colour of the white-balance gain tag: white when the capture records
/// gains, dimmed otherwise.
pub fn gain_style(has_gain: bool) -> (s: TagStyle)
    ensures
        s == (if has_gain { TagStyle::White } else { TagStyle::Dimmed }),
{
    if has_gain {
        TagStyle::White
    } else {
        TagStyle::Dimmed
    }
}

/// The tag a module is listed with: its sensor, coloured by storage format.
pub fn module_tag(img: &RawImage) -> (t: Tag)
    ensures
        t.text@ == sensor_tag_text(img.sensor),
        t.style == format_tag_style(img.format),
{
    let text: &'static str = match img.sensor {
        SensorModel::Ar1335 => "a13",
        SensorModel::Ar1335Mono => "a1m",
        SensorModel::Unknown => "???",
    };
    let style: TagStyle = match img.format {
        DataFormat::BayerJpeg => TagStyle::Cyan,
        DataFormat::Packed10bpp => TagStyle::Yellow,
    };
    Tag { text, style }
}

/// Every HDR, scene and module tag is three characters wide, so the columns
/// of the survey line stay aligned from one capture to the next.
pub proof fn lemma_tags_are_three_wide(hdr: Option<HdrMode>, scene: Option<SceneMode>, sensor: SensorModel)
    ensures
        hdr_tag_text(hdr).len() == 3,
        scene_tag_text(scene).len() == 3,
        sensor_tag_text(sensor).len() == 3,
{
    reveal_strlit("non");
    reveal_strlit("nop");
    reveal_strlit("hdr");
    reveal_strlit("nat");
    reveal_strlit("sur");
    reveal_strlit("prt");
    reveal_strlit("lnd");
    reveal_strlit("mcr");
    reveal_strlit("spt");
    reveal_strlit("ni ");
    reveal_strlit("a13");
    reveal_strlit("a1m");
    reveal_strlit("???");
}

/// Different HDR settings, scene presets and sensors get different tags, so
/// the survey line tells them apart.
pub proof fn lemma_tags_tell_settings_apart(
    h1: Option<HdrMode>,
    h2: Option<HdrMode>,
    c1: Option<SceneMode>,
    c2: Option<SceneMode>,
    s1: SensorModel,
    s2: SensorModel,
)
    ensures
        hdr_tag_text(h1) == hdr_tag_text(h2) ==> h1 == h2,
        scene_tag_text(c1) == scene_tag_text(c2) ==> c1 == c2,
        sensor_tag_text(s1) == sensor_tag_text(s2) ==> s1 == s2,
{
    reveal_strlit("non");
    reveal_strlit("nop");
    reveal_strlit("hdr");
    reveal_strlit("nat");
    reveal_strlit("sur");
    reveal_strlit("prt");
    reveal_strlit("lnd");
    reveal_strlit("mcr");
    reveal_strlit("spt");
    reveal_strlit("ni ");
    reveal_strlit("a13");
    reveal_strlit("a1m");
    reveal_strlit("???");
    if hdr_tag_text(h1) == hdr_tag_text(h2) {
        assert(hdr_tag_text(h1)[0] == hdr_tag_text(h2)[0]);
        assert(hdr_tag_text(h1)[1] == hdr_tag_text(h2)[1]);
        assert(hdr_tag_text(h1)[2] == hdr_tag_text(h2)[2]);
    }
    if scene_tag_text(c1) == scene_tag_text(c2) {
        assert(scene_tag_text(c1)[0] == scene_tag_text(c2)[0]);
        assert(scene_tag_text(c1)[1] == scene_tag_text(c2)[1]);
        assert(scene_tag_text(c1)[2] == scene_tag_text(c2)[2]);
    }
    if sensor_tag_text(s1) == sensor_tag_text(s2) {
        assert(sensor_tag_text(s1)[0] == sensor_tag_text(s2)[0]);
        assert(sensor_tag_text(s1)[1] == sensor_tag_text(s2)[1]);
        assert(sensor_tag_text(s1)[2] == sensor_tag_text(s2)[2]);
    }
}

/// A yes/no flag is drawn in three different colours for unknown, no and yes,
/// and the white-balance tag in three different colours for unknown, auto
/// and daylight.
pub proof fn lemma_styles_tell_states_apart(f1: Option<bool>, f2: Option<bool>, a1: Option<AwbMode>, a2: Option<AwbMode>)
    ensures
        flag_tag_style(f1) == flag_tag_style(f2) ==> f1 == f2,
        awb_tag_style(a1) == awb_tag_style(a2) ==> a1 == a2,
{
}

} // verus!
