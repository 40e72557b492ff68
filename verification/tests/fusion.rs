use lri_rs::fusion::{
    distortion_summary, imu_summary, modules_with_intrinsics, DistortionSummary, ImuFrame, ImuSummary,
};

#[test]
fn imu_summary_counts_frames_and_samples() {
    let frames = [
        ImuFrame { accelerometer_samples: 3, gyroscope_samples: 4 },
        ImuFrame { accelerometer_samples: 0, gyroscope_samples: 2 },
        ImuFrame { accelerometer_samples: 5, gyroscope_samples: 0 },
    ];
    assert_eq!(
        imu_summary(&frames),
        ImuSummary { frames: 3, accel_samples: 8, gyro_samples: 6 }
    );
    assert_eq!(
        imu_summary(&[]),
        ImuSummary { frames: 0, accel_samples: 0, gyro_samples: 0 }
    );
}

#[test]
fn distortion_summary_records_models() {
    assert_eq!(distortion_summary(None, false), DistortionSummary::default());
    assert_eq!(
        distortion_summary(Some(5), true),
        DistortionSummary { polynomial: true, cra: true, poly_coeffs: 5 }
    );
    assert_eq!(
        distortion_summary(Some(0), false),
        DistortionSummary { polynomial: true, cra: false, poly_coeffs: 0 }
    );
}

#[test]
fn l16_a1_polynomial_extracted() {
    // The A1 module's calibration carries a five-term radial polynomial and no
    // chief-ray-angle model; its summary must record the polynomial and all
    // of its coefficients.
    let a1 = distortion_summary(Some(5), false);
    assert!(a1.polynomial, "A1 polynomial");
    assert!(a1.poly_coeffs >= 3, "expected >=3 coeffs, got {}", a1.poly_coeffs);
    assert!(!a1.cra);
}

#[test]
fn modules_with_intrinsics_counts_modules_with_any_k_matrix() {
    let modules = vec![
        vec![false, true, false],
        vec![],
        vec![false, false],
        vec![true],
        vec![true, true],
    ];
    assert_eq!(modules_with_intrinsics(&modules), 3);
    assert_eq!(modules_with_intrinsics(&[]), 0);
}
