use netflow_query_api::threshold::threshold_bytes;

fn bytes(mib: f64) -> Result<i64, String> {
    match threshold_bytes(mib.to_bits()) {
        Ok(bytes) => Ok(bytes),
        Err(err) => {
            let response = err.into_response();
            assert_eq!(response.status, 422);
            assert_eq!(response.code, "VALIDATION_ERROR");
            Err(response.message)
        }
    }
}

const NOT_A_THRESHOLD: &str = "threshold_mib must be a finite number greater than or equal to 0";
const TOO_LARGE: &str = "threshold_mib is too large";

#[test]
fn whole_mib_is_exact() {
    assert_eq!(bytes(0.0), Ok(0));
    assert_eq!(bytes(1.0), Ok(1_048_576));
    assert_eq!(bytes(1024.0), Ok(1_073_741_824));
    assert_eq!(bytes(1_000_000.0), Ok(1_048_576_000_000));
}

#[test]
fn bytes_round_to_nearest_half_upwards() {
    assert_eq!(bytes(0.5), Ok(524_288));
    assert_eq!(bytes(0.1), Ok(104_858));
    assert_eq!(bytes(0.5 / 1_048_576.0), Ok(1));
    assert_eq!(bytes(0.49 / 1_048_576.0), Ok(0));
    assert_eq!(bytes(2.5 / 1_048_576.0), Ok(3));
    assert_eq!(bytes(f64::MIN_POSITIVE), Ok(0));
    assert_eq!(bytes(f64::from_bits(1)), Ok(0));
}

#[test]
fn not_finite_or_negative_is_refused() {
    for mib in [f64::NAN, f64::INFINITY, f64::NEG_INFINITY, -1.0, -f64::from_bits(1)] {
        assert_eq!(bytes(mib), Err(NOT_A_THRESHOLD.to_string()));
    }
}

#[test]
fn negative_zero_is_zero() {
    assert_eq!(bytes(-0.0), Ok(0));
}

#[test]
fn too_many_bytes_are_refused() {
    let limit = 8_796_093_022_208.0;
    assert_eq!(bytes(limit), Ok(i64::MAX));
    assert_eq!(bytes(f64::from_bits(limit.to_bits() + 1)), Err(TOO_LARGE.to_string()));
    assert_eq!(bytes(f64::from_bits(limit.to_bits() - 1)), Ok(9_223_372_036_854_774_784));
    assert_eq!(bytes(f64::MAX), Err(TOO_LARGE.to_string()));
}

/// The same as multiplying and rounding doubles.
#[test]
fn agrees_with_floating_point() {
    let mut bits: u64 = 1;
    let mut i = 0;
    while i < 200_000 {
        bits = bits.wrapping_mul(6_364_136_223_846_793_005).wrapping_add(1_442_695_040_888_963_407);
        let exponent = 990 + (bits >> 57) % 96;
        let mib = f64::from_bits((exponent << 52) | (bits >> 12));
        let product = (mib * 1_048_576.0).round();
        if product > i64::MAX as f64 {
            assert_eq!(bytes(mib), Err(TOO_LARGE.to_string()));
        } else {
            assert_eq!(bytes(mib), Ok(product as i64));
        }
        i += 1;
    }
}
