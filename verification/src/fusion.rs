//! Summaries of the calibration and motion data a capture carries for fusion.

use vstd::prelude::*;

verus! {

/// How many motion-sensor frames and samples a capture holds.
#[derive(Debug, Clone, Copy, PartialEq, Eq, Structural)]
pub struct ImuSummary {
    pub frames: usize,
    pub accel_samples: usize,
    pub gyro_samples: usize,
}

/// How many samples one motion-sensor frame holds.
#[derive(Debug, Clone, Copy, PartialEq, Eq, Structural)]
pub struct ImuFrame {
    pub accelerometer_samples: usize,
    pub gyroscope_samples: usize,
}

/// Accelerometer samples in the first `n` frames.
pub open spec fn accel_total(frames: Seq<ImuFrame>, n: int) -> int
    decreases n,
{
    if n <= 0 {
        0
    } else {
        accel_total(frames, n - 1) + frames[n - 1].accelerometer_samples
    }
}

/// Gyroscope samples in the first `n` frames.
pub open spec fn gyro_total(frames: Seq<ImuFrame>, n: int) -> int
    decreases n,
{
    if n <= 0 {
        0
    } else {
        gyro_total(frames, n - 1) + frames[n - 1].gyroscope_samples
    }
}

proof fn lemma_totals_grow(frames: Seq<ImuFrame>, i: int, n: int)
    requires
        0 <= i <= n <= frames.len(),
    ensures
        accel_total(frames, i) <= accel_total(frames, n),
        gyro_total(frames, i) <= gyro_total(frames, n),
    decreases n - i,
{
    if i < n {
        lemma_totals_grow(frames, i, n - 1);
    }
}

/// Count the frames of a motion recording and the samples in them.
pub fn imu_summary(imu_frames: &[ImuFrame]) -> (s: ImuSummary)
    requires
        accel_total(imu_frames@, imu_frames@.len() as int) <= usize::MAX,
        gyro_total(imu_frames@, imu_frames@.len() as int) <= usize::MAX,
    ensures
        s.frames == imu_frames@.len(),
        s.accel_samples == accel_total(imu_frames@, imu_frames@.len() as int),
        s.gyro_samples == gyro_total(imu_frames@, imu_frames@.len() as int),
{
    let n: usize = imu_frames.len();
    let mut accel_samples: usize = 0;
    let mut gyro_samples: usize = 0;
    let mut i: usize = 0;
    while i < n
        invariant
            n == imu_frames@.len(),
            0 <= i <= n,
            accel_total(imu_frames@, n as int) <= usize::MAX,
            gyro_total(imu_frames@, n as int) <= usize::MAX,
            accel_samples == accel_total(imu_frames@, i as int),
            gyro_samples == gyro_total(imu_frames@, i as int),
        decreases n - i,
    {
        proof {
            lemma_totals_grow(imu_frames@, i as int + 1, n as int);
        }
        accel_samples = accel_samples + imu_frames[i].accelerometer_samples;
        gyro_samples = gyro_samples + imu_frames[i].gyroscope_samples;
        i = i + 1;
    }
    ImuSummary { frames: n, accel_samples, gyro_samples }
}

/// Whether a module has intrinsics: some focus calibration of it, each given
/// by whether it carries a K matrix, does.
pub open spec fn has_intrinsics(k_present: Seq<bool>) -> bool {
    exists|i: int| 0 <= i < k_present.len() && k_present[i]
}

/// How many of the first `n` modules have intrinsics.
pub open spec fn intrinsics_count(modules: Seq<Vec<bool>>, n: int) -> nat
    decreases n,
{
    if n <= 0 {
        0
    } else {
        intrinsics_count(modules, n - 1) + if has_intrinsics(modules[n - 1]@) {
            1nat
        } else {
            0nat
        }
    }
}

proof fn lemma_intrinsics_count_bound(modules: Seq<Vec<bool>>, n: int)
    requires
        0 <= n,
    ensures
        intrinsics_count(modules, n) <= n,
    decreases n,
{
    if n > 0 {
        lemma_intrinsics_count_bound(modules, n - 1);
    }
}

proof fn lemma_intrinsics_count_extremes(modules: Seq<Vec<bool>>, n: int)
    requires
        0 <= n <= modules.len(),
    ensures
        (forall|i: int| 0 <= i < n ==> has_intrinsics(#[trigger] modules[i]@)) ==> intrinsics_count(modules, n)
            == n,
        (forall|i: int| 0 <= i < n ==> !has_intrinsics(#[trigger] modules[i]@)) ==> intrinsics_count(modules, n)
            == 0,
    decreases n,
{
    if n > 0 {
        lemma_intrinsics_count_extremes(modules, n - 1);
    }
}

/// Modules are counted by whether any of their focus calibrations carries a
/// K matrix: when every module has one somewhere, all of them count; when no
/// calibration has one, none does; and the count never exceeds the modules.
pub proof fn lemma_intrinsics_count_by_any(modules: Seq<Vec<bool>>, n: int)
    requires
        0 <= n <= modules.len(),
    ensures
        intrinsics_count(modules, n) <= n,
        (forall|i: int| #![trigger modules[i]] 0 <= i < n ==> exists|k: int| 0 <= k < modules[i]@.len() && #[trigger] modules[i]@[k])
            ==> intrinsics_count(modules, n) == n,
        (forall|i: int, k: int| 0 <= i < n && 0 <= k < modules[i]@.len() ==> !#[trigger] modules[i]@[k])
            ==> intrinsics_count(modules, n) == 0,
{
    lemma_intrinsics_count_bound(modules, n);
    lemma_intrinsics_count_extremes(modules, n);
    if forall|i: int| #![trigger modules[i]] 0 <= i < n ==> exists|k: int| 0 <= k < modules[i]@.len() && #[trigger] modules[i]@[k] {
        assert forall|i: int| 0 <= i < n implies has_intrinsics(#[trigger] modules[i]@) by {
            let k = choose|k: int| 0 <= k < modules[i]@.len() && #[trigger] modules[i]@[k];
            assert(modules[i]@[k]);
        }
    }
    if forall|i: int, k: int| 0 <= i < n && 0 <= k < modules[i]@.len() ==> !#[trigger] modules[i]@[k] {
        assert forall|i: int| 0 <= i < n implies !has_intrinsics(#[trigger] modules[i]@) by {
            if has_intrinsics(modules[i]@) {
                let k = choose|k: int| 0 <= k < modules[i]@.len() && modules[i]@[k];
                assert(!modules[i]@[k]);
            }
        }
    }
}

/// Count the modules that have intrinsics, each module given by whether each
/// of its focus calibrations carries a K matrix.
pub fn modules_with_intrinsics(modules: &[Vec<bool>]) -> (count: usize)
    ensures
        count == intrinsics_count(modules@, modules@.len() as int),
{
    let n: usize = modules.len();
    let mut count: usize = 0;
    let mut i: usize = 0;
    while i < n
        invariant
            n == modules@.len(),
            0 <= i <= n,
            count == intrinsics_count(modules@, i as int),
        decreases n - i,
    {
        proof {
            lemma_intrinsics_count_bound(modules@, i as int);
        }
        let ks: &Vec<bool> = &modules[i];
        let mut any: bool = false;
        let mut j: usize = 0;
        while j < ks.len()
            invariant
                0 <= j <= ks@.len(),
                any == (exists|k: int| 0 <= k < j && ks@[k]),
            decreases ks@.len() - j,
        {
            if ks[j] {
                any = true;
            }
            j = j + 1;
        }
        if any {
            count = count + 1;
        }
        i = i + 1;
    }
    count
}

/// Kind of mirror in front of a module.
#[derive(Debug, Clone, Copy, PartialEq, Eq, Structural)]
pub enum MirrorType {
    /// No mirror (named `None` in the calibration data).
    NoMirror,
    Glued,
    Movable,
}

/// Which lens-distortion models a module's calibration carries.
#[derive(Debug, Clone, Copy, PartialEq, Eq, Structural)]
pub struct DistortionSummary {
    pub polynomial: bool,
    pub cra: bool,
    pub poly_coeffs: usize,
}

impl Default for DistortionSummary {
    fn default() -> (d: DistortionSummary)
        ensures
            d == (DistortionSummary { polynomial: false, cra: false, poly_coeffs: 0 }),
    {
        DistortionSummary { polynomial: false, cra: false, poly_coeffs: 0 }
    }
}

/// Summarize a distortion calibration from the coefficient count of its
/// polynomial model (if it has one) and whether it has a chief-ray-angle model.
pub fn distortion_summary(polynomial_coeffs: Option<usize>, has_cra: bool) -> (d: DistortionSummary)
    ensures
        d.polynomial == polynomial_coeffs is Some,
        d.poly_coeffs == match polynomial_coeffs {
            Some(n) => n,
            None => 0,
        },
        d.cra == has_cra,
{
    let mut distortion = DistortionSummary::default();
    if let Some(n) = polynomial_coeffs {
        distortion.polynomial = true;
        distortion.poly_coeffs = n;
    }
    if has_cra {
        distortion.cra = true;
    }
    distortion
}

} // verus!
