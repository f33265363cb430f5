//! # Romanus
//!
//! A verified crate for working with Roman numerals.
//!
//! The entry points are two functions, [`integer_to_roman`] and
//! [`roman_to_integer`], which convert between integral values and string
//! representations of Roman numerals. Both directions share one fixed symbol
//! table of thirteen atoms (plain symbols such as `M` and subtractive pairs
//! such as `CM`), ordered strictly descending by value. The [`laws`] module
//! proves how the two directions relate: encoding always round-trips through
//! decoding, and every encoded numeral is in canonical form.

pub mod itor;
pub mod laws;
pub mod rtoi;

pub use itor::integer_to_roman;
pub use rtoi::roman_to_integer;

use vstd::prelude::*;

verus! {

/// The minimum value supported for Roman numerals
pub const MIN_VALUE: u32 = 1;

/// The maximum value supported for Roman numerals
pub const MAX_VALUE: u32 = 3999;

/// The different kinds of errors that can be encountered when working with Roman numerals.
#[derive(Clone, Debug, Eq, Hash, Ord, PartialEq, PartialOrd)]
pub enum RomanNumeralError {
    /// Indicates that the numeric value is too large to be turned into a Roman numeral.
    ValueTooLarge(u32),
    /// Indicates that the numeric value is too small to be turned into a Roman numeral.
    ValueTooSmall(u32),
    /// Indicates a Roman numeral that could not be parsed into an integer.
    Unparsable(String),
    /// Indicates an empty Roman numeral value.
    EmptyString,
}

/// One atom of the symbol table: a value, its symbol, and how many times the
/// symbol may appear consecutively in a numeral.
#[derive(Clone, Debug)]
pub struct RomanNumeral {
    /// The numeric value of this atom.
    pub value: u32,
    /// The symbol (one or two upper-case letters) that denotes this atom.
    pub symbol: &'static str,
    /// The largest number of consecutive occurrences of this symbol that the
    /// decoder accepts: 3 for the repeatable powers of ten (M, C, X, I), 1 for
    /// every other atom.
    pub max_group: u8,
}

/// How many atoms the symbol table holds.
pub open spec fn atom_count() -> int {
    13
}

/// The value of the atom at index `i` of the table (1000 for any `i` outside it).
pub open spec fn atom_value(i: int) -> int {
    if i == 0 {
        1000
    } else if i == 1 {
        900
    } else if i == 2 {
        500
    } else if i == 3 {
        400
    } else if i == 4 {
        100
    } else if i == 5 {
        90
    } else if i == 6 {
        50
    } else if i == 7 {
        40
    } else if i == 8 {
        10
    } else if i == 9 {
        9
    } else if i == 10 {
        5
    } else if i == 11 {
        4
    } else {
        1
    }
}

/// The symbol of the atom at index `i` of the table, as a sequence of characters.
pub open spec fn atom_symbol(i: int) -> Seq<char> {
    if i == 0 {
        seq!['M']
    } else if i == 1 {
        seq!['C', 'M']
    } else if i == 2 {
        seq!['D']
    } else if i == 3 {
        seq!['C', 'D']
    } else if i == 4 {
        seq!['C']
    } else if i == 5 {
        seq!['X', 'C']
    } else if i == 6 {
        seq!['L']
    } else if i == 7 {
        seq!['X', 'L']
    } else if i == 8 {
        seq!['X']
    } else if i == 9 {
        seq!['I', 'X']
    } else if i == 10 {
        seq!['V']
    } else if i == 11 {
        seq!['I', 'V']
    } else {
        seq!['I']
    }
}

/// How many consecutive occurrences of the symbol at index `i` the decoder accepts.
pub open spec fn atom_max_group(i: int) -> int {
    if i == 0 || i == 4 || i == 8 || i == 12 {
        3
    } else {
        1
    }
}

/// The atom at index `i` of an executable table agrees with the specification table.
pub open spec fn wf_atom(a: RomanNumeral, i: int) -> bool {
    &&& a.value == atom_value(i)
    &&& a.symbol@ == atom_symbol(i)
    &&& a.max_group == atom_max_group(i)
}

/// An executable table agrees with the specification table atom for atom.
pub open spec fn wf_atoms(v: Seq<RomanNumeral>) -> bool {
    &&& v.len() == atom_count()
    &&& forall|i: int| 0 <= i < atom_count() ==> wf_atom(#[trigger] v[i], i)
}

/// The fixed symbol table: thirteen atoms ordered strictly descending by value,
/// from 1000 (`M`) down to 1 (`I`), subtractive forms included.
pub fn atoms() -> (r: Vec<RomanNumeral>)
    ensures
        wf_atoms(r@),
{
    let mut v: Vec<RomanNumeral> = Vec::new();
    v.push(RomanNumeral { value: 1000, symbol: "M", max_group: 3 });
    v.push(RomanNumeral { value: 900, symbol: "CM", max_group: 1 });
    v.push(RomanNumeral { value: 500, symbol: "D", max_group: 1 });
    v.push(RomanNumeral { value: 400, symbol: "CD", max_group: 1 });
    v.push(RomanNumeral { value: 100, symbol: "C", max_group: 3 });
    v.push(RomanNumeral { value: 90, symbol: "XC", max_group: 1 });
    v.push(RomanNumeral { value: 50, symbol: "L", max_group: 1 });
    v.push(RomanNumeral { value: 40, symbol: "XL", max_group: 1 });
    v.push(RomanNumeral { value: 10, symbol: "X", max_group: 3 });
    v.push(RomanNumeral { value: 9, symbol: "IX", max_group: 1 });
    v.push(RomanNumeral { value: 5, symbol: "V", max_group: 1 });
    v.push(RomanNumeral { value: 4, symbol: "IV", max_group: 1 });
    v.push(RomanNumeral { value: 1, symbol: "I", max_group: 3 });
    proof {
        reveal_strlit("M");
        reveal_strlit("CM");
        reveal_strlit("D");
        reveal_strlit("CD");
        reveal_strlit("C");
        reveal_strlit("XC");
        reveal_strlit("L");
        reveal_strlit("XL");
        reveal_strlit("X");
        reveal_strlit("IX");
        reveal_strlit("V");
        reveal_strlit("IV");
        reveal_strlit("I");
        assert forall|i: int| 0 <= i < atom_count() implies wf_atom(#[trigger] v@[i], i) by {
            assert(v@[i].symbol@ =~= atom_symbol(i));
        }
    }
    v
}

} // verus!
