//! Identifiers and modes carried in an `.lri` capture.

use vstd::prelude::*;

verus! {

/// One of the sixteen camera modules: five wide (A), five medium (B) and six
/// telephoto (C).
#[derive(Debug, Clone, Copy, PartialEq, Eq, Hash, Structural)]
pub enum CameraId {
    A1,
    A2,
    A3,
    A4,
    A5,
    B1,
    B2,
    B3,
    B4,
    B5,
    C1,
    C2,
    C3,
    C4,
    C5,
    C6,
}

/// The two-character name of a module, its row letter followed by its index.
pub open spec fn camera_name(c: CameraId) -> Seq<char> {
    match c {
        CameraId::A1 => seq!['A', '1'],
        CameraId::A2 => seq!['A', '2'],
        CameraId::A3 => seq!['A', '3'],
        CameraId::A4 => seq!['A', '4'],
        CameraId::A5 => seq!['A', '5'],
        CameraId::B1 => seq!['B', '1'],
        CameraId::B2 => seq!['B', '2'],
        CameraId::B3 => seq!['B', '3'],
        CameraId::B4 => seq!['B', '4'],
        CameraId::B5 => seq!['B', '5'],
        CameraId::C1 => seq!['C', '1'],
        CameraId::C2 => seq!['C', '2'],
        CameraId::C3 => seq!['C', '3'],
        CameraId::C4 => seq!['C', '4'],
        CameraId::C5 => seq!['C', '5'],
        CameraId::C6 => seq!['C', '6'],
    }
}

/// The module named `s`, if any.
pub open spec fn camera_for_name(s: Seq<char>) -> Option<CameraId> {
    if exists|c: CameraId| camera_name(c) == s {
        Some(choose|c: CameraId| camera_name(c) == s)
    } else {
        None
    }
}

/// Different modules have different names.
pub proof fn lemma_camera_names_distinct(a: CameraId, b: CameraId)
    requires
        camera_name(a) == camera_name(b),
    ensures
        a == b,
{
    assert(camera_name(a)[0] == camera_name(b)[0]);
    assert(camera_name(a)[1] == camera_name(b)[1]);
}

/// A module's name reads back as that module.
pub proof fn lemma_camera_name_round_trip(c: CameraId)
    ensures
        camera_for_name(camera_name(c)) == Some(c),
{
    let s = camera_name(c);
    assert(exists|d: CameraId| camera_name(d) == s);
    let d = choose|d: CameraId| camera_name(d) == s;
    lemma_camera_names_distinct(c, d);
}

impl CameraId {
    /// The module's name, e.g. `"B4"`.
    pub fn name(&self) -> (s: &'static str)
        ensures
            s@ == camera_name(*self),
    {
        match self {
            CameraId::A1 => {
                proof {
                    reveal_strlit("A1");
                }
                "A1"
            },
            CameraId::A2 => {
                proof {
                    reveal_strlit("A2");
                }
                "A2"
            },
            CameraId::A3 => {
                proof {
                    reveal_strlit("A3");
                }
                "A3"
            },
            CameraId::A4 => {
                proof {
                    reveal_strlit("A4");
                }
                "A4"
            },
            CameraId::A5 => {
                proof {
                    reveal_strlit("A5");
                }
                "A5"
            },
            CameraId::B1 => {
                proof {
                    reveal_strlit("B1");
                }
                "B1"
            },
            CameraId::B2 => {
                proof {
                    reveal_strlit("B2");
                }
                "B2"
            },
            CameraId::B3 => {
                proof {
                    reveal_strlit("B3");
                }
                "B3"
            },
            CameraId::B4 => {
                proof {
                    reveal_strlit("B4");
                }
                "B4"
            },
            CameraId::B5 => {
                proof {
                    reveal_strlit("B5");
                }
                "B5"
            },
            CameraId::C1 => {
                proof {
                    reveal_strlit("C1");
                }
                "C1"
            },
            CameraId::C2 => {
                proof {
                    reveal_strlit("C2");
                }
                "C2"
            },
            CameraId::C3 => {
                proof {
                    reveal_strlit("C3");
                }
                "C3"
            },
            CameraId::C4 => {
                proof {
                    reveal_strlit("C4");
                }
                "C4"
            },
            CameraId::C5 => {
                proof {
                    reveal_strlit("C5");
                }
                "C5"
            },
            CameraId::C6 => {
                proof {
                    reveal_strlit("C6");
                }
                "C6"
            },
        }
    }
}

/// Image sensor fitted to a module.
#[derive(Debug, Clone, Copy, PartialEq, Eq, Structural)]
pub enum SensorModel {
    Ar1335,
    Ar1335Mono,
    Unknown,
}

/// HDR setting recorded with the capture.
#[derive(Debug, Clone, Copy, PartialEq, Eq, Structural)]
pub enum HdrMode {
    /// HDR switched off (named `None` in the capture format).
    NoHdr,
    Default,
    Natural,
    Surreal,
}

/// Scene preset recorded with the capture.
#[derive(Debug, Clone, Copy, PartialEq, Eq, Structural)]
pub enum SceneMode {
    Portrait,
    Landscape,
    Sport,
    Macro,
    Night,
    /// No preset (named `None` in the capture format).
    NoScene,
}

/// White-balance mode recorded with the capture.
#[derive(Debug, Clone, Copy, PartialEq, Eq, Structural)]
pub enum AwbMode {
    Auto,
    Daylight,
}

/// How a module's sensor data is stored.
#[derive(Debug, Clone, Copy, PartialEq, Eq, Structural)]
pub enum DataFormat {
    BayerJpeg,
    Packed10bpp,
}

/// Name of a storage format, as it reads in summaries.
pub open spec fn data_format_name(f: DataFormat) -> Seq<char> {
    match f {
        DataFormat::BayerJpeg => seq!['B', 'a', 'y', 'e', 'r', 'J', 'p', 'e', 'g'],
        DataFormat::Packed10bpp => seq!['P', 'a', 'c', 'k', 'e', 'd', '1', '0', 'b', 'p', 'p'],
    }
}

/// The two storage formats have different names.
pub proof fn lemma_data_format_names_distinct(a: DataFormat, b: DataFormat)
    requires
        data_format_name(a) == data_format_name(b),
    ensures
        a == b,
{
    assert(data_format_name(a).len() == data_format_name(b).len());
}

impl DataFormat {
    /// The format's name, `"BayerJpeg"` or `"Packed10bpp"`.
    pub fn name(&self) -> (s: &'static str)
        ensures
            s@ == data_format_name(*self),
    {
        match self {
            DataFormat::BayerJpeg => {
                proof {
                    reveal_strlit("BayerJpeg");
                }
                "BayerJpeg"
            },
            DataFormat::Packed10bpp => {
                proof {
                    reveal_strlit("Packed10bpp");
                }
                "Packed10bpp"
            },
        }
    }
}

/// What a summary reads of one module's raw frame.
#[derive(Debug, Clone, Copy, PartialEq, Eq, Structural)]
pub struct RawImage {
    pub camera: CameraId,
    pub sensor: SensorModel,
    pub format: DataFormat,
    pub width: usize,
    pub height: usize,
}

} // verus!
