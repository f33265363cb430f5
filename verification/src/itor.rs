//! Integer-to-numeral encoding.
//!
//! The encoder extracts digits greedily: at each step it takes the largest
//! atom of the symbol table whose value does not exceed the remaining value,
//! appends that atom's symbol, and subtracts its value, until nothing remains.

use vstd::prelude::*;
use vstd::string::StringExecFns;

use crate::{
    atom_count, atom_symbol, atom_value, atoms, wf_atoms, RomanNumeralError, MAX_VALUE, MIN_VALUE,
};

verus! {

/// The least table index at or after `i` whose atom value is at most `n`,
/// falling back to the last atom (value 1) when none of the others fits.
pub open spec fn first_fit_from(i: int, n: int) -> int
    decreases atom_count() - i,
{
    if i >= atom_count() - 1 {
        atom_count() - 1
    } else if atom_value(i) <= n {
        i
    } else {
        first_fit_from(i + 1, n)
    }
}

/// The table index of the largest atom whose value is at most `n`.
pub open spec fn first_fit(n: int) -> int {
    first_fit_from(0, n)
}

pub proof fn lemma_first_fit_from(i: int, n: int)
    requires
        0 <= i <= atom_count() - 1,
        n >= 1,
    ensures
        i <= first_fit_from(i, n) <= atom_count() - 1,
        atom_value(first_fit_from(i, n)) <= n,
        forall|j: int| i <= j < first_fit_from(i, n) ==> atom_value(j) > n,
    decreases atom_count() - i,
{
    if i < atom_count() - 1 && atom_value(i) > n {
        lemma_first_fit_from(i + 1, n);
    }
}

/// For a positive remainder the table always offers a fitting atom, the
/// largest one, and every atom before it is too large.
pub proof fn lemma_first_fit(n: int)
    requires
        n >= 1,
    ensures
        0 <= first_fit(n) <= atom_count() - 1,
        1 <= atom_value(first_fit(n)) <= n,
        forall|j: int| 0 <= j < first_fit(n) ==> atom_value(j) > n,
{
    lemma_first_fit_from(0, n);
}

/// The canonical Roman numeral for `n`, produced by greedy digit extraction:
/// the symbol of the largest atom with value at most `n`, followed by the
/// encoding of what remains.
pub open spec fn spec_encode(n: int) -> Seq<char>
    decreases n,
{
    if n <= 0 {
        Seq::empty()
    } else {
        proof {
            lemma_first_fit(n);
        }
        atom_symbol(first_fit(n)) + spec_encode(n - atom_value(first_fit(n)))
    }
}

/// Extracts the next digit of a Roman numeral from the remaining value:
/// returns the value of the largest atom that fits and subtracts it from the
/// seed, or returns `None` once the seed has reached zero.
pub fn digit_extractor(seed: &mut u32) -> (r: Option<u32>)
    ensures
        *old(seed) == 0 ==> r is None && *final(seed) == 0,
        *old(seed) > 0 ==> r == Some(atom_value(first_fit(*old(seed) as int)) as u32)
            && *final(seed) == *old(seed) - atom_value(first_fit(*old(seed) as int)),
{
    if *seed == 0 {
        return None;
    }
    let s: u32 = *seed;
    let table = atoms();
    let mut idx: usize = 0;
    while idx < 12 && table[idx].value > s
        invariant
            wf_atoms(table@),
            0 <= idx <= 12,
            s >= 1,
            forall|j: int| 0 <= j < idx ==> atom_value(j) > s as int,
        decreases 12 - idx,
    {
        idx = idx + 1;
    }
    proof {
        lemma_first_fit(s as int);
        assert(idx == first_fit(s as int));
    }
    let d = table[idx].value;
    *seed = s - d;
    Some(d)
}

/// The symbol of the atom whose value is `value`, when the table has one.
pub fn symbol_for_value(value: u32) -> (r: Option<&'static str>)
    ensures
        forall|i: int|
            0 <= i < atom_count() && atom_value(i) == value as int ==> (r matches Some(s)
                && s@ == atom_symbol(i)),
        (forall|i: int| 0 <= i < atom_count() ==> atom_value(i) != value as int) ==> r is None,
{
    let table = atoms();
    let mut idx: usize = 0;
    while idx < 13
        invariant
            wf_atoms(table@),
            0 <= idx <= 13,
            forall|j: int| 0 <= j < idx ==> atom_value(j) != value as int,
        decreases 13 - idx,
    {
        if table[idx].value == value {
            let sym = table[idx].symbol;
            return Some(sym);
        }
        idx = idx + 1;
    }
    None
}

/// Converts an integer into a string representing a Roman numeral.
///
/// The input must be greater than or equal to [`MIN_VALUE`] and less than or
/// equal to [`MAX_VALUE`]; values outside those bounds are rejected with
/// [`RomanNumeralError::ValueTooSmall`] or [`RomanNumeralError::ValueTooLarge`].
/// On success the numeral comes back in upper-case characters, equal to the
/// greedy encoding [`spec_encode`].
pub fn integer_to_roman(val: u32) -> (r: Result<String, RomanNumeralError>)
    ensures
        val < MIN_VALUE ==> r == Err::<String, RomanNumeralError>(
            RomanNumeralError::ValueTooSmall(val),
        ),
        val > MAX_VALUE ==> r == Err::<String, RomanNumeralError>(
            RomanNumeralError::ValueTooLarge(val),
        ),
        MIN_VALUE <= val <= MAX_VALUE ==> (r matches Ok(s) && s@ == spec_encode(val as int)),
{
    if val < MIN_VALUE {
        Err(RomanNumeralError::ValueTooSmall(val))
    } else if val > MAX_VALUE {
        Err(RomanNumeralError::ValueTooLarge(val))
    } else {
        let mut remaining: u32 = val;
        let mut result: String = String::new();
        while remaining > 0
            invariant
                spec_encode(val as int) =~= result@ + spec_encode(remaining as int),
            decreases remaining,
        {
            let ghost rem: int = remaining as int;
            proof {
                lemma_first_fit(rem);
            }
            let d = digit_extractor(&mut remaining).unwrap();
            let sym = symbol_for_value(d).unwrap();
            result.append(sym);
            proof {
                assert(sym@ == atom_symbol(first_fit(rem)));
                assert(spec_encode(rem) == atom_symbol(first_fit(rem)) + spec_encode(
                    remaining as int,
                ));
            }
        }
        proof {
            assert(result@ + spec_encode(0) =~= result@);
        }
        Ok(result)
    }
}

} // verus!
