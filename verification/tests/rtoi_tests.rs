use romanus::rtoi::{check_numeral_format, decompose_numeral, normalize_numeral, ParseState};
use romanus::{roman_to_integer, RomanNumeralError};

#[test]
fn reject_invalid_format() {
    let invalid_values = [
        "ABCDEF", "MMDL1", "934;-)", "CMM", "ID", "MMCCD", "XLXL", "IIII", "VV", "DDIV",
    ];
    for val in invalid_values.iter() {
        match roman_to_integer(*val) {
            Err(RomanNumeralError::Unparsable(_)) => (),
            Err(e) => panic!("wrong kind of error: {:?}", e),
            Ok(int_val) => panic!("unexpected ok result: {} = {}", val, int_val),
        }
    }
}

#[test]
fn reject_empty_string() {
    for val in ["", "   ", "\t", "\n"].iter() {
        match roman_to_integer(*val) {
            Err(RomanNumeralError::EmptyString) => (),
            Err(_) => panic!("wrong kind of error"),
            Ok(_) => panic!("unexpected ok result"),
        }
    }
}

#[test]
fn allow_lowercase_and_whitespace() {
    for val in ["  MCXLII", "CII  ", "  X  ", "V\n", "mcmxl", " cclxi ", "mmCCxXiI"].iter() {
        match roman_to_integer(*val) {
            Err(_) => panic!("error parsing value"),
            Ok(_) => (),
        }
    }
}

#[test]
fn convert_i_to_1() {
    assert_eq!(roman_to_integer("I").unwrap(), 1);
}

#[test]
fn convert_v_to_5() {
    assert_eq!(roman_to_integer("V").unwrap(), 5);
}

#[test]
fn convert_x_to_10() {
    assert_eq!(roman_to_integer("X").unwrap(), 10);
}

#[test]
fn convert_l_to_50() {
    assert_eq!(roman_to_integer("L").unwrap(), 50);
}

#[test]
fn convert_c_to_100() {
    assert_eq!(roman_to_integer("C").unwrap(), 100);
}

#[test]
fn convert_d_to_500() {
    assert_eq!(roman_to_integer("D").unwrap(), 500);
}

#[test]
fn convert_m_to_1000() {
    assert_eq!(roman_to_integer("M").unwrap(), 1000);
}

#[test]
fn convert_iv_to_4() {
    assert_eq!(roman_to_integer("IV").unwrap(), 4);
}

#[test]
fn convert_ix_to_9() {
    assert_eq!(roman_to_integer("IX").unwrap(), 9);
}

#[test]
fn convert_xlviii_to_48() {
    assert_eq!(roman_to_integer("XLVIII").unwrap(), 48);
}

#[test]
fn convert_dcci_to_701() {
    assert_eq!(roman_to_integer("DCCI").unwrap(), 701);
}

#[test]
fn convert_mcxlii_to_1142() {
    assert_eq!(roman_to_integer("MCXLII").unwrap(), 1142);
}

#[test]
fn convert_mmcdlxviii_to_2468() {
    assert_eq!(roman_to_integer("MMCDLXVIII").unwrap(), 2468);
}

#[test]
fn normalize_trims_and_uppercases() {
    assert_eq!(normalize_numeral(" cv\n"), "CV");
    assert_eq!(normalize_numeral("mmCCxXiI"), "MMCCXXII");
    assert_eq!(normalize_numeral("   "), "");
    assert_eq!(normalize_numeral("a b"), "A B");
}

#[test]
fn format_check_reports_each_error() {
    let good = String::from("XII");
    assert_eq!(check_numeral_format(&good).unwrap(), "XII");
    let empty = String::new();
    assert!(matches!(
        check_numeral_format(&empty),
        Err(RomanNumeralError::EmptyString)
    ));
    let bad = String::from("X1I");
    assert!(matches!(
        check_numeral_format(&bad),
        Err(RomanNumeralError::Unparsable(t)) if t == "X1I"
    ));
}

#[test]
fn decompose_records_atom_values() {
    assert_eq!(
        decompose_numeral("MCXLII").unwrap(),
        vec![1000, 100, 40, 1, 1]
    );
    assert_eq!(
        decompose_numeral("MMMCMXCIX").unwrap(),
        vec![1000, 1000, 1000, 900, 90, 9]
    );
    assert!(matches!(
        decompose_numeral("IM"),
        Err(RomanNumeralError::Unparsable(t)) if t == "IM"
    ));
}

#[test]
fn parse_state_walks_the_table() {
    let mut state = ParseState::new("MI");
    assert!(!state.is_complete());
    assert_eq!(state.current_numeral().symbol, "M");
    assert_eq!(state.current_numeral().value, 1000);
    assert_eq!(state.current_numeral().max_group, 3);
    state.remove_current();
    assert_eq!(state.group_size, 1);
    state.advance_numeral();
    assert_eq!(state.group_size, 0);
    assert_eq!(state.current_numeral().value, 900);
    let mut pos: usize = state.numeral_pos;
    while pos < 13 {
        assert!(!state.is_complete());
        state.advance_numeral();
        pos += 1;
    }
    assert!(state.is_complete());
}
