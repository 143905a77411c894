use oneko_desktop::clock::{low_bits, nanos_or_one, now_seed, seed_now, MAX_NANOS};
use oneko_desktop::rng::{bearing, low, roll, roll_u64};
use oneko_desktop::text::{
    encode_utf16, fill_tip, menu_text, same_text, write_digit, write_numeral, write_six_digits,
};

#[test]
fn texts_are_compared_by_their_characters() {
    assert!(same_text("", ""));
    assert!(same_text("cat", "cat"));
    assert!(!same_text("cat", "cats"));
    assert!(!same_text("cat", "Cat"));
}

#[test]
fn numerals_are_written_like_the_standard_formats() {
    for n in [0u128, 1, 9, 10, 15, 16, 255, 256, 4095, 1_000_000, u64::MAX as u128, u128::MAX] {
        assert_eq!(write_numeral(n, 16), format!("{:x}", n));
        assert_eq!(write_numeral(n, 10), format!("{}", n));
        assert_eq!(write_numeral(n, 2), format!("{:b}", n));
    }
}

#[test]
fn digits_go_from_zero_to_f() {
    assert_eq!(write_digit(0), '0');
    assert_eq!(write_digit(9), '9');
    assert_eq!(write_digit(10), 'a');
    assert_eq!(write_digit(15), 'f');
}

#[test]
fn six_digits_are_padded_with_zeros() {
    assert_eq!(write_six_digits(0), "000000");
    assert_eq!(write_six_digits(42), "000042");
    assert_eq!(write_six_digits(999_999), "999999");
    assert_eq!(write_six_digits(1_000_007), "000007");
}

#[test]
fn utf16_is_that_of_the_standard_library() {
    for s in ["", "Open Settings", "Käse", "\u{ffff}", "\u{10000}", "猫 🐈 \u{10ffff}"] {
        let units: Vec<u16> = s.encode_utf16().collect();
        assert_eq!(encode_utf16(s), units);
    }
    assert_eq!(encode_utf16("🐈"), vec![0xd83d, 0xdc08]);
}

#[test]
fn menu_texts_end_in_zero() {
    assert_eq!(menu_text("Hi"), vec![72, 105, 0]);
    assert_eq!(menu_text(""), vec![0]);
}

#[test]
fn tips_that_fit_are_written_whole() {
    let mut buf = [7u16; 6];
    fill_tip(&mut buf, "cat");
    assert_eq!(buf, [99, 97, 116, 0, 7, 7]);
}

#[test]
fn tips_that_do_not_fit_are_cut() {
    let mut buf = [7u16; 3];
    fill_tip(&mut buf, "cats");
    assert_eq!(buf, [99, 97, 0]);
    let mut one = [7u16; 1];
    fill_tip(&mut one, "cats");
    assert_eq!(one, [0]);
    let mut exact = [7u16; 4];
    fill_tip(&mut exact, "cats");
    assert_eq!(exact, [99, 97, 116, 0]);
}

#[test]
fn the_clock_counts_nanoseconds_since_1970() {
    let now = now_seed();
    assert!(now > 1_600_000_000_000_000_000);
    assert!(now <= MAX_NANOS);
    assert!(now_seed() >= now);
}

#[test]
fn seeds_are_the_low_bits_of_the_clock() {
    let before = low_bits(now_seed());
    let seed = seed_now();
    let after = low_bits(now_seed());
    assert!(before <= seed && seed <= after);
    assert_eq!(low_bits(u64::MAX as u128 + 6), 5);
    assert_eq!(low_bits(7), 7);
}

#[test]
fn a_clock_before_the_epoch_counts_as_one() {
    assert_eq!(nanos_or_one(None), 1);
    assert_eq!(nanos_or_one(Some(12)), 12);
}

#[test]
fn the_generator_is_linear_congruential() {
    let mut rng = 3u64;
    let first = roll_u64(&mut rng);
    assert_eq!(first, 3u64.wrapping_mul(6364136223846793005).wrapping_add(1));
    assert_eq!(rng, first);
    let second = first.wrapping_mul(6364136223846793005).wrapping_add(1);
    let rolled = roll(&mut rng, 360);
    assert_eq!(rng, second);
    assert_eq!(rolled, ((second >> 32) as u32) % 360);
}

#[test]
fn bearings_come_from_the_upper_bits_of_a_seed() {
    assert_eq!(bearing(0), 0);
    assert_eq!(bearing(256 * 45 + 17), 45);
    assert_eq!(bearing(256 * 400), 40);
    assert_eq!(low(17), 17);
    assert_eq!(low(0x1_0000_0005), 5);
}
