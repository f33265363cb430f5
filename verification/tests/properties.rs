use romanus::{integer_to_roman, roman_to_integer, RomanNumeralError};

#[test]
fn round_trip_all_values() {
    let mut n: u32 = 1;
    while n <= 3999 {
        let numeral = integer_to_roman(n).unwrap();
        assert_eq!(roman_to_integer(&numeral).unwrap(), n);
        n += 1;
    }
}

#[test]
fn canonical_form_all_values() {
    let forbidden = ["IIII", "VV", "XXXX", "LL", "CCCC", "DD", "MMMM"];
    let mut n: u32 = 1;
    while n <= 3999 {
        let numeral = integer_to_roman(n).unwrap();
        assert!(!numeral.is_empty());
        for ch in numeral.chars() {
            assert!("IVXLCDM".contains(ch));
        }
        for group in forbidden.iter() {
            assert!(!numeral.contains(group));
        }
        n += 1;
    }
}

#[test]
fn case_and_whitespace_tolerance() {
    assert_eq!(roman_to_integer(" cv\n"), roman_to_integer("CV"));
    assert_eq!(roman_to_integer("CV").unwrap(), 105);
}

#[test]
fn normalization_is_idempotent() {
    for val in ["  mCxLiI ", "\tIX\n", "", "   ", "abc", " iiii ", "M M"].iter() {
        let normalized = val.trim().to_uppercase();
        assert_eq!(roman_to_integer(val), roman_to_integer(&normalized));
    }
}

#[test]
fn concrete_scenarios() {
    assert_eq!(integer_to_roman(1142).unwrap(), "MCXLII");
    assert_eq!(integer_to_roman(48).unwrap(), "XLVIII");
    assert_eq!(roman_to_integer("MCXLII").unwrap(), 1142);
    assert_eq!(roman_to_integer("XLVIII").unwrap(), 48);
    assert_eq!(roman_to_integer("mcmxl").unwrap(), 1940);
}

#[test]
fn every_error_variant_is_reachable() {
    assert_eq!(integer_to_roman(0), Err(RomanNumeralError::ValueTooSmall(0)));
    assert_eq!(
        integer_to_roman(5000),
        Err(RomanNumeralError::ValueTooLarge(5000))
    );
    assert_eq!(roman_to_integer(" \t"), Err(RomanNumeralError::EmptyString));
    assert_eq!(
        roman_to_integer("xiv "),
        Ok(14)
    );
    assert_eq!(
        roman_to_integer(" no caesar "),
        Err(RomanNumeralError::Unparsable(String::from("NO CAESAR")))
    );
    assert_eq!(
        roman_to_integer("IIII"),
        Err(RomanNumeralError::Unparsable(String::from("IIII")))
    );
}

#[test]
fn decoder_accepts_monotone_decompositions_beyond_max() {
    // The decomposition pass enforces the descending order of the table but
    // no upper bound on the sum: the longest numeral it can consume is one
    // full group of every atom.
    assert_eq!(
        roman_to_integer("MMMCMDCDCCCXCLXLXXXIXVIVIII").unwrap(),
        5331
    );
    assert_eq!(roman_to_integer("VIV").unwrap(), 9);
}
