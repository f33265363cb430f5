use romanus::atoms;
use romanus::itor::symbol_for_value;

#[test]
fn check_atoms() {
    let table = atoms();
    assert_eq!(1000, table[0].value);
    assert_eq!(40, table[7].value);
    assert_eq!(1, table[12].value);
}

#[test]
fn lib_check_atoms() {
    let table = atoms();
    assert_eq!(1000, table[0].value);
    assert_eq!(40, table[7].value);
    assert_eq!(1, table[12].value);
}

#[test]
fn check_digits() {
    let table = atoms();
    assert_eq!(500, table[2].value);
    assert_eq!(40, table[7].value);
    assert_eq!(5, table[10].value);
}

#[test]
fn check_values_to_symbols() {
    assert_eq!("CM", symbol_for_value(900).unwrap());
    assert_eq!("CD", symbol_for_value(400).unwrap());
    assert_eq!("C", symbol_for_value(100).unwrap());
    assert_eq!("IX", symbol_for_value(9).unwrap());
}

#[test]
fn no_symbol_for_other_values() {
    assert_eq!(None, symbol_for_value(0));
    assert_eq!(None, symbol_for_value(2));
    assert_eq!(None, symbol_for_value(999));
}

#[test]
fn atoms_are_sorted_descending() {
    let table = atoms();
    assert_eq!(table.len(), 13);
    for i in 1..table.len() {
        assert!(table[i - 1].value > table[i].value);
    }
}

#[test]
fn max_group_marks_the_repeatable_atoms() {
    let table = atoms();
    for atom in table.iter() {
        let expected = match atom.symbol {
            "M" | "C" | "X" | "I" => 3,
            _ => 1,
        };
        assert_eq!(atom.max_group, expected);
    }
}
