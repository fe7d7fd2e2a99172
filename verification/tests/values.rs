use fault_injection_prevention::jitter::{scale_to_range, RandomError};
use fault_injection_prevention::platform::{reset_request, AIRCR_ADDR};
use fault_injection_prevention::secure_bool::{hamming_distance, SecureBool, TriStateCode};

const TRUTH: u64 = 0x0123_4567_89AB_CDEF;
const ERROR: u64 = 0x0F0F_0F0F_0F0F_0F0F;

fn next(seed: &mut u64) -> u64 {
    *seed = seed.wrapping_mul(6364136223846793005).wrapping_add(1442695040888963407);
    let mut z = *seed;
    z = (z ^ (z >> 30)).wrapping_mul(0xBF58_476D_1CE4_E5B9);
    z = (z ^ (z >> 27)).wrapping_mul(0x94D0_49BB_1331_11EB);
    z ^ (z >> 31)
}

#[test]
fn secure_bool_from_bool() {
    assert_eq!(SecureBool::from(true), SecureBool::True);
    assert_eq!(SecureBool::from(false), SecureBool::False);
}

#[test]
fn secure_bool_default_is_error() {
    assert_eq!(SecureBool::default(), SecureBool::Error);
    assert_ne!(SecureBool::default(), SecureBool::False);
}

#[test]
fn hamming_distance_exact_values() {
    assert_eq!(hamming_distance(0, 0), 0);
    assert_eq!(hamming_distance(0, u64::MAX), 64);
    assert_eq!(hamming_distance(0b1011, 0b0010), 2);
    assert_eq!(hamming_distance(1 << 63, 1), 2);
    assert_eq!(hamming_distance(TRUTH, !TRUTH), 64);
    assert_eq!(hamming_distance(TRUTH, ERROR), (TRUTH ^ ERROR).count_ones());
}

#[test]
fn code_patterns_are_truth_complement_and_error() {
    let code = TriStateCode::new(TRUTH, ERROR).unwrap();
    assert_eq!(code.encode(SecureBool::True), TRUTH);
    assert_eq!(code.encode(SecureBool::False), !TRUTH);
    assert_eq!(code.encode(SecureBool::Error), ERROR);
}

#[test]
fn code_decodes_its_patterns_and_nothing_else() {
    let code = TriStateCode::new(TRUTH, ERROR).unwrap();
    assert_eq!(code.decode(TRUTH), SecureBool::True);
    assert_eq!(code.decode(!TRUTH), SecureBool::False);
    assert_eq!(code.decode(ERROR), SecureBool::Error);
    assert_eq!(code.decode(0), SecureBool::Error);
    assert_eq!(code.decode(TRUTH ^ 1), SecureBool::Error);
    assert_eq!(code.decode(!TRUTH ^ (1 << 40)), SecureBool::Error);
}

#[test]
fn code_refuses_words_that_are_too_close() {
    assert!(TriStateCode::new(TRUTH, TRUTH).is_none());
    assert!(TriStateCode::new(TRUTH, !TRUTH).is_none());
    assert!(TriStateCode::new(TRUTH, TRUTH ^ 0x7FFF).is_none());
    assert!(TriStateCode::new(TRUTH, !TRUTH ^ 0x7FFF).is_none());
    assert!(TriStateCode::new(TRUTH, TRUTH ^ 0xFFFF).is_some());
    assert!(TriStateCode::new(TRUTH, !TRUTH ^ 0xFFFF).is_some());
}

#[test]
fn code_from_random_words_never_fails() {
    let code = TriStateCode::from_random(TRUTH, ERROR);
    assert_eq!(code.encode(SecureBool::True), TRUTH);
    assert_eq!(code.encode(SecureBool::False), !TRUTH);
    assert_eq!(code.encode(SecureBool::Error), ERROR);

    for error in [TRUTH, !TRUTH, TRUTH ^ 0x7FFF, !TRUTH ^ 0x7FFF] {
        let code = TriStateCode::from_random(TRUTH, error);
        assert_eq!(code.encode(SecureBool::True), TRUTH);
        assert_eq!(code.encode(SecureBool::False), !TRUTH);
        assert_eq!(code.encode(SecureBool::Error), TRUTH ^ 0x0000_0000_FFFF_FFFF);
        assert_eq!(hamming_distance(TRUTH, code.encode(SecureBool::Error)), 32);
        assert_eq!(hamming_distance(!TRUTH, code.encode(SecureBool::Error)), 32);
    }
}

#[test]
fn few_flipped_bits_never_change_one_state_into_another() {
    let code = TriStateCode::new(TRUTH, ERROR).unwrap();
    let mut seed = 7;
    for value in [SecureBool::True, SecureBool::False, SecureBool::Error] {
        for _ in 0..2000 {
            let mut mask = 0u64;
            for _ in 0..15 {
                mask |= 1 << (next(&mut seed) % 64);
            }
            let read = code.decode(code.encode(value) ^ mask);
            assert!(read == value || read == SecureBool::Error);
        }
    }
}

#[test]
fn generated_codes_are_pairwise_distinct_and_far_apart() {
    let mut seed = 0x5EED;
    let mut accepted = 0;
    for _ in 0..5000 {
        let truth = next(&mut seed);
        let error = next(&mut seed);
        if let Some(code) = TriStateCode::new(truth, error) {
            accepted += 1;
            let t = code.encode(SecureBool::True);
            let f = code.encode(SecureBool::False);
            let e = code.encode(SecureBool::Error);
            assert!(t != f && t != e && f != e);
            assert!(hamming_distance(t, f) >= 16);
            assert!(hamming_distance(t, e) >= 16);
            assert!(hamming_distance(f, e) >= 16);
        } else {
            let d = hamming_distance(truth, error);
            assert!(d < 16 || d > 48);
        }
    }
    assert!(accepted > 4900);
}

#[test]
fn scale_to_range_exact_values() {
    assert_eq!(scale_to_range(0, 10, 50), Ok(10));
    assert_eq!(scale_to_range(40, 10, 50), Ok(50));
    assert_eq!(scale_to_range(41, 10, 50), Ok(10));
    assert_eq!(scale_to_range(1000, 10, 50), Ok(10 + 1000 % 41));
    assert_eq!(scale_to_range(u32::MAX, 10, 50), Ok(10 + u32::MAX % 41));
}

#[test]
fn scale_to_range_single_value() {
    assert_eq!(scale_to_range(0, 7, 7), Ok(7));
    assert_eq!(scale_to_range(123_456, 7, 7), Ok(7));
    assert_eq!(scale_to_range(9, u32::MAX, u32::MAX), Ok(u32::MAX));
}

#[test]
fn scale_to_range_whole_width() {
    assert_eq!(scale_to_range(0, 0, u32::MAX), Ok(0));
    assert_eq!(scale_to_range(77, 0, u32::MAX), Ok(77));
    assert_eq!(scale_to_range(u32::MAX, 0, u32::MAX), Ok(u32::MAX));
    assert_eq!(scale_to_range(u32::MAX, 1, u32::MAX), Ok(1));
}

#[test]
fn scale_to_range_refuses_inverted_range() {
    assert_eq!(scale_to_range(0, 51, 50), Err(RandomError::InvalidRange));
    assert_eq!(scale_to_range(5, u32::MAX, 0), Err(RandomError::InvalidRange));
}

#[test]
fn reset_request_is_key_and_request_bit() {
    assert_eq!(reset_request(), 0x05FA_0004);
    assert_eq!(reset_request() >> 16, 0x05FA);
    assert_eq!(reset_request() & 0xFFFF, 1 << 2);
    assert_eq!(AIRCR_ADDR, 0xE000_ED0C);
}
