use romanus::itor::digit_extractor;
use romanus::{integer_to_roman, RomanNumeralError, MAX_VALUE, MIN_VALUE};

#[test]
fn reject_values_less_than_min() {
    match integer_to_roman(MIN_VALUE - 1) {
        Err(RomanNumeralError::ValueTooSmall(_)) => (),
        Err(_) => panic!("wrong kind of error"),
        Ok(_) => panic!("unexpected ok result"),
    };
}

#[test]
fn reject_values_greater_than_max() {
    match integer_to_roman(MAX_VALUE + 1) {
        Err(RomanNumeralError::ValueTooLarge(_)) => (),
        Err(_) => panic!("wrong kind of error"),
        Ok(_) => panic!("unexpected ok result"),
    };
}

#[test]
fn convert_1_to_i() {
    assert_eq!(integer_to_roman(1).unwrap(), String::from("I"));
}

#[test]
fn convert_5_to_v() {
    assert_eq!(integer_to_roman(5).unwrap(), String::from("V"));
}

#[test]
fn convert_10_to_x() {
    assert_eq!(integer_to_roman(10).unwrap(), String::from("X"));
}

#[test]
fn convert_50_to_l() {
    assert_eq!(integer_to_roman(50).unwrap(), String::from("L"));
}

#[test]
fn convert_100_to_c() {
    assert_eq!(integer_to_roman(100).unwrap(), String::from("C"));
}

#[test]
fn convert_500_to_d() {
    assert_eq!(integer_to_roman(500).unwrap(), String::from("D"));
}

#[test]
fn convert_1000_to_m() {
    assert_eq!(integer_to_roman(1000).unwrap(), String::from("M"));
}

#[test]
fn convert_4_to_iv() {
    assert_eq!(integer_to_roman(4).unwrap(), String::from("IV"));
}

#[test]
fn convert_9_to_ix() {
    assert_eq!(integer_to_roman(9).unwrap(), String::from("IX"));
}

#[test]
fn convert_48_to_xlviii() {
    assert_eq!(integer_to_roman(48).unwrap(), String::from("XLVIII"));
}

#[test]
fn convert_701_to_dcci() {
    assert_eq!(integer_to_roman(701).unwrap(), String::from("DCCI"));
}

#[test]
fn convert_1142_to_mcxlii() {
    assert_eq!(integer_to_roman(1142).unwrap(), String::from("MCXLII"));
}

#[test]
fn convert_2468_to_mmcdlxviii() {
    assert_eq!(integer_to_roman(2468).unwrap(), String::from("MMCDLXVIII"));
}

#[test]
fn digit_extractor_walks_greedily() {
    let mut seed: u32 = 1142;
    assert_eq!(digit_extractor(&mut seed), Some(1000));
    assert_eq!(seed, 142);
    assert_eq!(digit_extractor(&mut seed), Some(100));
    assert_eq!(seed, 42);
    assert_eq!(digit_extractor(&mut seed), Some(40));
    assert_eq!(seed, 2);
    assert_eq!(digit_extractor(&mut seed), Some(1));
    assert_eq!(digit_extractor(&mut seed), Some(1));
    assert_eq!(digit_extractor(&mut seed), None);
    assert_eq!(seed, 0);
}

#[test]
fn boundary_values() {
    assert_eq!(
        integer_to_roman(0),
        Err(RomanNumeralError::ValueTooSmall(0))
    );
    assert_eq!(
        integer_to_roman(4000),
        Err(RomanNumeralError::ValueTooLarge(4000))
    );
    assert_eq!(integer_to_roman(1).unwrap(), "I");
    assert_eq!(integer_to_roman(3999).unwrap(), "MMMCMXCIX");
}
