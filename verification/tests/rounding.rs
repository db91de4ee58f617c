use monotonic_timer::rounding::{rounded_quotient, SIGNIFICAND_LIMIT, SIGNIFICAND_MIN};

/// Division of two whole numbers that doubles hold exactly, as the hardware does it.
fn divide_as_doubles(p: u64, q: u64) -> u64 {
    (p as f64 / q as f64) as u64
}

/// Next state of a 64-bit xorshift generator.
fn next_random(state: u64) -> u64 {
    let mut x: u64 = state;
    x ^= x << 13;
    x ^= x >> 7;
    x ^= x << 17;
    x
}

#[test]
fn small_quotients_are_floors() {
    assert_eq!(rounded_quotient(7, 2), 3);
    assert_eq!(rounded_quotient(1, 3), 0);
    assert_eq!(rounded_quotient(2, 3), 0);
    assert_eq!(rounded_quotient(3, 3), 1);
    assert_eq!(rounded_quotient(10, 5), 2);
    assert_eq!(rounded_quotient(999_999_999, 1_000_000_000), 0);
    assert_eq!(rounded_quotient(3_000_000_000, 125), 24_000_000);
}

#[test]
fn zero_dividend_gives_zero() {
    assert_eq!(rounded_quotient(0, 1), 0);
    assert_eq!(rounded_quotient(0, u64::MAX), 0);
}

#[test]
fn zero_divisor_gives_zero_or_the_greatest_number() {
    assert_eq!(rounded_quotient(0, 0), 0);
    assert_eq!(rounded_quotient(1, 0), u64::MAX);
    assert_eq!(rounded_quotient(u64::MAX, 0), u64::MAX);
}

#[test]
fn whole_numbers_below_the_limit_are_kept() {
    assert_eq!(rounded_quotient(SIGNIFICAND_MIN, 1), SIGNIFICAND_MIN);
    assert_eq!(rounded_quotient(SIGNIFICAND_MIN + 1, 1), SIGNIFICAND_MIN + 1);
    assert_eq!(rounded_quotient(SIGNIFICAND_LIMIT - 1, 1), SIGNIFICAND_LIMIT - 1);
    assert_eq!(rounded_quotient(SIGNIFICAND_LIMIT, 1), SIGNIFICAND_LIMIT);
}

#[test]
fn ties_go_to_the_even_neighbour() {
    // Above the limit only every second number is kept.
    assert_eq!(rounded_quotient(SIGNIFICAND_LIMIT + 1, 1), SIGNIFICAND_LIMIT);
    assert_eq!(rounded_quotient(SIGNIFICAND_LIMIT + 2, 1), SIGNIFICAND_LIMIT + 2);
    assert_eq!(rounded_quotient(SIGNIFICAND_LIMIT + 3, 1), SIGNIFICAND_LIMIT + 4);
    assert_eq!(rounded_quotient(9_007_199_254_740_993, 1), 9_007_199_254_740_992);
    assert_eq!(rounded_quotient(9_007_199_254_740_995, 1), 9_007_199_254_740_996);
    // One half above a whole number in the range kept to the unit.
    assert_eq!(rounded_quotient(13_510_798_882_111_489, 2), 6_755_399_441_055_744);
    assert_eq!(rounded_quotient(2 * SIGNIFICAND_MIN + 3, 2), SIGNIFICAND_MIN + 2);
}

#[test]
fn large_quotients_lose_their_low_bits() {
    assert_eq!(rounded_quotient(u64::MAX, 3), 6_148_914_691_236_516_864);
    assert_eq!(rounded_quotient(4_611_686_018_427_387_905, 1023), 4_508_001_973_047_300);
    assert_eq!(rounded_quotient(18_446_744_073_709_550_591, 1), 18_446_744_073_709_549_568);
}

#[test]
fn quotients_beyond_64_bits_saturate() {
    assert_eq!(rounded_quotient(u64::MAX, 1), u64::MAX);
    assert_eq!(rounded_quotient(18_446_744_073_709_550_592, 1), u64::MAX);
}

#[test]
fn rounding_up_can_pass_the_floor() {
    // 3569519662 * 10^9 / 395 lies between ...683 and ...684.
    let p: u64 = 3_569_519_662_000_000_000;
    assert_eq!(p / 395, 9_036_758_637_974_683);
    assert_eq!(rounded_quotient(p, 395), 9_036_758_637_974_684);
}

#[test]
fn rounding_down_can_fall_under_the_floor() {
    let p: u64 = 541_581_475_000_000_000;
    assert_eq!(p / 23, 23_547_020_652_173_913);
    assert_eq!(rounded_quotient(p, 23), 23_547_020_652_173_912);
}

#[test]
fn rounded_quotient_agrees_with_hardware_division() {
    let mut state: u64 = 0x9E37_79B9_7F4A_7C15;
    let mut round: u32 = 0;
    while round < 200_000 {
        state = next_random(state);
        let p_bits: u32 = (state % 53) as u32 + 1;
        state = next_random(state);
        let q_bits: u32 = (state % 53) as u32 + 1;
        state = next_random(state);
        let p_shift: u32 = (state % 12) as u32;
        state = next_random(state);
        let q_shift: u32 = (state % 12) as u32;
        state = next_random(state);
        let p: u64 = (state >> (64 - p_bits)) << p_shift.min(64 - p_bits);
        state = next_random(state);
        let q: u64 = (state >> (64 - q_bits)) << q_shift.min(64 - q_bits);
        if q != 0 {
            // Both operands fit in 53 bits and a shift, so the conversion to double is exact.
            assert_eq!(p as f64 as u64, p);
            assert_eq!(q as f64 as u64, q);
            assert_eq!(rounded_quotient(p, q), divide_as_doubles(p, q), "{} / {}", p, q);
        }
        round += 1;
    }
}

#[test]
fn rounded_quotient_is_within_one_part_in_two_to_the_53() {
    let mut state: u64 = 0x0123_4567_89AB_CDEF;
    let mut round: u32 = 0;
    while round < 50_000 {
        state = next_random(state);
        let p: u64 = state >> (state % 40);
        state = next_random(state);
        let q: u64 = (state >> 32 >> (state % 31)) + 1;
        let rounded: u128 = rounded_quotient(p >> 2, q) as u128;
        let p: u128 = (p >> 2) as u128;
        let q: u128 = q as u128;
        let unit: u128 = SIGNIFICAND_LIMIT as u128;
        assert!(unit * q * rounded <= (unit + 1) * p);
        assert!((unit - 1) * p < unit * q * (rounded + 1));
        if p < unit {
            assert_eq!(rounded, p / q);
        }
        round += 1;
    }
}

#[test]
fn rounded_quotient_depends_on_the_ratio_alone() {
    assert_eq!(rounded_quotient(3 * 541_581_475_000_000_000, 3 * 23), 23_547_020_652_173_912);
    let mut state: u64 = 0xD1B5_4A32_D192_ED03;
    let mut round: u32 = 0;
    while round < 50_000 {
        state = next_random(state);
        let p: u64 = state >> 8 >> (state % 50);
        state = next_random(state);
        let q: u64 = (state >> 40 >> (state % 20)) + 1;
        state = next_random(state);
        let c: u64 = (state % 255) + 1;
        assert_eq!(rounded_quotient(c * p, c * q), rounded_quotient(p, q), "{} {} {}", p, q, c);
        round += 1;
    }
}

#[test]
fn whole_numbers_of_53_bits_and_zero_bits_are_kept() {
    let significands: [u64; 6] = [
        1,
        3,
        1_953_125,
        SIGNIFICAND_MIN + 1,
        SIGNIFICAND_LIMIT - 1,
        4_294_967_295 * 1_953_125,
    ];
    for significand in significands {
        let mut zero_bits: u32 = 0;
        while zero_bits <= significand.leading_zeros() {
            if significand.leading_zeros() - zero_bits >= 1 {
                let number: u64 = significand << zero_bits;
                assert_eq!(rounded_quotient(number, 1), number);
                assert_eq!(number as f64 as u64, number);
            }
            zero_bits += 1;
        }
    }
}
