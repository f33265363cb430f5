//! Laws relating the encoder and the decoder.
//!
//! The central facts proved here: every value in bounds encodes to a numeral
//! that decodes back to the same value, and every encoded numeral is in
//! canonical form (numeral letters only, no over-long repetition of a symbol).
//! Both proofs rest on one decomposition: the greedy encoding of a value is
//! the concatenation of four fixed blocks, one for each decimal digit.

use vstd::prelude::*;

use crate::itor::{first_fit, first_fit_from, spec_encode};
use crate::rtoi::{
    all_roman_chars, is_roman_char, lemma_normalize_roman, lemma_seq_sum_cons, machine, matches_at,
    seq_sum, spec_decode_ok, spec_decode_value, sym_len,
};
use crate::{atom_count, atom_symbol, atom_value};

verus! {

/// The block an encoded numeral starts with: one `M` for each thousand.
pub open spec fn thousands_form(a: int) -> Seq<char> {
    if a == 1 {
        seq!['M']
    } else if a == 2 {
        seq!['M', 'M']
    } else if a == 3 {
        seq!['M', 'M', 'M']
    } else {
        Seq::empty()
    }
}

/// The block that encodes the hundreds digit.
pub open spec fn hundreds_form(b: int) -> Seq<char> {
    if b == 1 {
        seq!['C']
    } else if b == 2 {
        seq!['C', 'C']
    } else if b == 3 {
        seq!['C', 'C', 'C']
    } else if b == 4 {
        seq!['C', 'D']
    } else if b == 5 {
        seq!['D']
    } else if b == 6 {
        seq!['D', 'C']
    } else if b == 7 {
        seq!['D', 'C', 'C']
    } else if b == 8 {
        seq!['D', 'C', 'C', 'C']
    } else if b == 9 {
        seq!['C', 'M']
    } else {
        Seq::empty()
    }
}

/// The block that encodes the tens digit.
pub open spec fn tens_form(c: int) -> Seq<char> {
    if c == 1 {
        seq!['X']
    } else if c == 2 {
        seq!['X', 'X']
    } else if c == 3 {
        seq!['X', 'X', 'X']
    } else if c == 4 {
        seq!['X', 'L']
    } else if c == 5 {
        seq!['L']
    } else if c == 6 {
        seq!['L', 'X']
    } else if c == 7 {
        seq!['L', 'X', 'X']
    } else if c == 8 {
        seq!['L', 'X', 'X', 'X']
    } else if c == 9 {
        seq!['X', 'C']
    } else {
        Seq::empty()
    }
}

/// The block that encodes the units digit.
pub open spec fn units_form(d: int) -> Seq<char> {
    if d == 1 {
        seq!['I']
    } else if d == 2 {
        seq!['I', 'I']
    } else if d == 3 {
        seq!['I', 'I', 'I']
    } else if d == 4 {
        seq!['I', 'V']
    } else if d == 5 {
        seq!['V']
    } else if d == 6 {
        seq!['V', 'I']
    } else if d == 7 {
        seq!['V', 'I', 'I']
    } else if d == 8 {
        seq!['V', 'I', 'I', 'I']
    } else if d == 9 {
        seq!['I', 'X']
    } else {
        Seq::empty()
    }
}

/// The index the greedy scan picks, written as one comparison chain.
spec fn ff_closed(n: int) -> int {
    if n >= 1000 {
        0
    } else if n >= 900 {
        1
    } else if n >= 500 {
        2
    } else if n >= 400 {
        3
    } else if n >= 100 {
        4
    } else if n >= 90 {
        5
    } else if n >= 50 {
        6
    } else if n >= 40 {
        7
    } else if n >= 10 {
        8
    } else if n >= 9 {
        9
    } else if n >= 5 {
        10
    } else if n >= 4 {
        11
    } else {
        12
    }
}

proof fn lemma_ff_all()
    ensures
        forall|m: int| m >= 1 ==> #[trigger] first_fit(m) == ff_closed(m),
{
    assert forall|m: int| m >= 1 implies #[trigger] first_fit(m) == ff_closed(m) by {
        reveal_with_fuel(first_fit_from, 14);
    }
}

proof fn lemma_encode_units(d: int)
    requires
        0 <= d <= 9,
    ensures
        spec_encode(d) == units_form(d),
{
    lemma_ff_all();
    reveal_with_fuel(spec_encode, 6);
    if d == 0 {
        assert(spec_encode(0) =~= units_form(0));
    } else if d == 1 {
        assert(spec_encode(1) =~= units_form(1));
    } else if d == 2 {
        assert(spec_encode(2) =~= units_form(2));
    } else if d == 3 {
        assert(spec_encode(3) =~= units_form(3));
    } else if d == 4 {
        assert(spec_encode(4) =~= units_form(4));
    } else if d == 5 {
        assert(spec_encode(5) =~= units_form(5));
    } else if d == 6 {
        assert(spec_encode(6) =~= units_form(6));
    } else if d == 7 {
        assert(spec_encode(7) =~= units_form(7));
    } else if d == 8 {
        assert(spec_encode(8) =~= units_form(8));
    } else {
        assert(spec_encode(9) =~= units_form(9));
    }
}

proof fn lemma_encode_tens(c: int, rem: int)
    requires
        0 <= c <= 9,
        0 <= rem <= 9,
    ensures
        spec_encode(10 * c + rem) == tens_form(c) + spec_encode(rem),
{
    lemma_ff_all();
    reveal_with_fuel(spec_encode, 6);
    let n = 10 * c + rem;
    if c == 0 {
        assert(tens_form(0) + spec_encode(rem) =~= spec_encode(rem));
    } else if c == 1 {
        assert(spec_encode(n) =~= tens_form(1) + spec_encode(rem));
    } else if c == 2 {
        assert(spec_encode(n) =~= tens_form(2) + spec_encode(rem));
    } else if c == 3 {
        assert(spec_encode(n) =~= tens_form(3) + spec_encode(rem));
    } else if c == 4 {
        assert(spec_encode(n) =~= tens_form(4) + spec_encode(rem));
    } else if c == 5 {
        assert(spec_encode(n) =~= tens_form(5) + spec_encode(rem));
    } else if c == 6 {
        assert(spec_encode(n) =~= tens_form(6) + spec_encode(rem));
    } else if c == 7 {
        assert(spec_encode(n) =~= tens_form(7) + spec_encode(rem));
    } else if c == 8 {
        assert(spec_encode(n) =~= tens_form(8) + spec_encode(rem));
    } else {
        assert(spec_encode(n) =~= tens_form(9) + spec_encode(rem));
    }
}

proof fn lemma_encode_hundreds(b: int, rem: int)
    requires
        0 <= b <= 9,
        0 <= rem <= 99,
    ensures
        spec_encode(100 * b + rem) == hundreds_form(b) + spec_encode(rem),
{
    lemma_ff_all();
    reveal_with_fuel(spec_encode, 6);
    let n = 100 * b + rem;
    if b == 0 {
        assert(hundreds_form(0) + spec_encode(rem) =~= spec_encode(rem));
    } else if b == 1 {
        assert(spec_encode(n) =~= hundreds_form(1) + spec_encode(rem));
    } else if b == 2 {
        assert(spec_encode(n) =~= hundreds_form(2) + spec_encode(rem));
    } else if b == 3 {
        assert(spec_encode(n) =~= hundreds_form(3) + spec_encode(rem));
    } else if b == 4 {
        assert(spec_encode(n) =~= hundreds_form(4) + spec_encode(rem));
    } else if b == 5 {
        assert(spec_encode(n) =~= hundreds_form(5) + spec_encode(rem));
    } else if b == 6 {
        assert(spec_encode(n) =~= hundreds_form(6) + spec_encode(rem));
    } else if b == 7 {
        assert(spec_encode(n) =~= hundreds_form(7) + spec_encode(rem));
    } else if b == 8 {
        assert(spec_encode(n) =~= hundreds_form(8) + spec_encode(rem));
    } else {
        assert(spec_encode(n) =~= hundreds_form(9) + spec_encode(rem));
    }
}

proof fn lemma_encode_thousands(a: int, rem: int)
    requires
        0 <= a <= 3,
        0 <= rem <= 999,
    ensures
        spec_encode(1000 * a + rem) == thousands_form(a) + spec_encode(rem),
{
    lemma_ff_all();
    reveal_with_fuel(spec_encode, 5);
    let n = 1000 * a + rem;
    if a == 0 {
        assert(thousands_form(0) + spec_encode(rem) =~= spec_encode(rem));
    } else if a == 1 {
        assert(spec_encode(n) =~= thousands_form(1) + spec_encode(rem));
    } else if a == 2 {
        assert(spec_encode(n) =~= thousands_form(2) + spec_encode(rem));
    } else {
        assert(spec_encode(n) =~= thousands_form(3) + spec_encode(rem));
    }
}

/// The greedy encoding of `n` is the concatenation of the four digit blocks.
pub proof fn lemma_encode_digits(a: int, b: int, c: int, d: int)
    requires
        0 <= a <= 3,
        0 <= b <= 9,
        0 <= c <= 9,
        0 <= d <= 9,
    ensures
        spec_encode(1000 * a + 100 * b + 10 * c + d) == thousands_form(a) + (hundreds_form(b) + (
        tens_form(c) + units_form(d))),
{
    lemma_encode_thousands(a, 100 * b + 10 * c + d);
    lemma_encode_hundreds(b, 10 * c + d);
    lemma_encode_tens(c, d);
    lemma_encode_units(d);
}

proof fn lemma_no_match_first(text: Seq<char>, i: int)
    requires
        0 <= i < atom_count(),
        text.len() == 0 || text[0] != atom_symbol(i)[0],
    ensures
        !matches_at(text, i),
{
    if matches_at(text, i) {
        assert(text.subrange(0, sym_len(i))[0] == text[0]);
        assert(false);
    }
}

proof fn lemma_no_match_second(text: Seq<char>, i: int)
    requires
        0 <= i < atom_count(),
        sym_len(i) == 2,
        text.len() < 2 || text[1] != atom_symbol(i)[1],
    ensures
        !matches_at(text, i),
{
    if matches_at(text, i) {
        assert(text.subrange(0, 2)[1] == text[1]);
        assert(false);
    }
}

proof fn lemma_machine_skip(text: Seq<char>, i: int, j: int)
    requires
        0 <= i <= j <= atom_count(),
        forall|k: int| i <= k < j ==> !matches_at(text, k),
    ensures
        machine(text, i, 0) == machine(text, j, 0),
    decreases j - i,
{
    if i < j {
        lemma_machine_skip(text, i + 1, j);
    }
}

proof fn lemma_match_exact(sym: Seq<char>, rest: Seq<char>, i: int)
    requires
        0 <= i < atom_count(),
        sym == atom_symbol(i),
    ensures
        matches_at(sym + rest, i),
        (sym + rest).skip(sym_len(i)) == rest,
{
    assert((sym + rest).subrange(0, sym_len(i)) =~= sym);
    assert((sym + rest).skip(sym_len(i)) =~= rest);
}

proof fn lemma_machine_units(d: int)
    requires
        0 <= d <= 9,
    ensures
        machine(units_form(d), 9, 0).0.len() == 0,
        seq_sum(machine(units_form(d), 9, 0).1) == d,
{
    let e = Seq::<char>::empty();
    if d == 0 {
        lemma_no_match_first(e, 9);
        lemma_no_match_first(e, 10);
        lemma_no_match_first(e, 11);
        lemma_no_match_first(e, 12);
        lemma_machine_skip(e, 9, 13);
        assert(units_form(0) == e);
    } else if d <= 3 {
        let t3 = seq!['I'] + e;
        let t2 = seq!['I'] + t3;
        let t1 = seq!['I'] + t2;
        lemma_no_match_first(e, 12);
        lemma_machine_skip(e, 12, 13);
        lemma_match_exact(seq!['I'], e, 12);
        assert(t3.len() == 1 && t3[0] == 'I');
        assert(t2.len() == 2 && t2[0] == 'I' && t2[1] == 'I');
        assert(t1.len() == 3 && t1[0] == 'I' && t1[1] == 'I');
        lemma_match_exact(seq!['I'], t3, 12);
        lemma_match_exact(seq!['I'], t2, 12);
        lemma_seq_sum_cons(atom_value(12), machine(e, 12, 1).1);
        lemma_seq_sum_cons(atom_value(12), machine(e, 12, 2).1);
        lemma_seq_sum_cons(atom_value(12), machine(e, 13, 0).1);
        lemma_seq_sum_cons(atom_value(12), machine(t3, 12, 1).1);
        lemma_seq_sum_cons(atom_value(12), machine(t3, 12, 2).1);
        lemma_seq_sum_cons(atom_value(12), machine(t2, 12, 1).1);
        if d == 1 {
            lemma_no_match_second(t3, 9);
            lemma_no_match_first(t3, 10);
            lemma_no_match_second(t3, 11);
            lemma_machine_skip(t3, 9, 12);
            assert(units_form(1) == t3);
        } else if d == 2 {
            lemma_no_match_second(t2, 9);
            lemma_no_match_first(t2, 10);
            lemma_no_match_second(t2, 11);
            lemma_machine_skip(t2, 9, 12);
            assert(units_form(2) =~= t2);
        } else {
            lemma_no_match_second(t1, 9);
            lemma_no_match_first(t1, 10);
            lemma_no_match_second(t1, 11);
            lemma_machine_skip(t1, 9, 12);
            assert(units_form(3) =~= t1);
        }
    } else if d == 4 {
        let t = seq!['I', 'V'];
        assert(t.len() == 2 && t[0] == 'I' && t[1] == 'V');
        lemma_no_match_second(t, 9);
        lemma_no_match_first(t, 10);
        lemma_machine_skip(t, 9, 11);
        assert(t =~= seq!['I', 'V'] + e);
        lemma_match_exact(seq!['I', 'V'], e, 11);
        assert(matches_at(t, 11) && t.skip(2) == e);
        lemma_no_match_first(e, 12);
        lemma_machine_skip(e, 12, 13);
        lemma_seq_sum_cons(atom_value(11), machine(e, 12, 0).1);
        assert(units_form(4) == t);
    } else if d == 9 {
        let t = seq!['I', 'X'];
        assert(t =~= seq!['I', 'X'] + e);
        lemma_match_exact(seq!['I', 'X'], e, 9);
        assert(matches_at(t, 9) && t.skip(2) == e);
        lemma_no_match_first(e, 10);
        lemma_no_match_first(e, 11);
        lemma_no_match_first(e, 12);
        lemma_machine_skip(e, 10, 13);
        lemma_seq_sum_cons(atom_value(9), machine(e, 10, 0).1);
        assert(units_form(9) == t);
    } else {
        // d is 5, 6, 7 or 8: a V followed by d - 5 copies of I
        let u3 = seq!['I'] + e;
        let u2 = seq!['I'] + u3;
        let u1 = seq!['I'] + u2;
        assert(u3.len() == 1 && u3[0] == 'I');
        assert(u2.len() == 2 && u2[0] == 'I' && u2[1] == 'I');
        assert(u1.len() == 3 && u1[0] == 'I' && u1[1] == 'I');
        // how the machine runs over the trailing I's from state (12, 0)
        lemma_no_match_first(e, 12);
        lemma_machine_skip(e, 12, 13);
        lemma_match_exact(seq!['I'], e, 12);
        lemma_match_exact(seq!['I'], u3, 12);
        lemma_match_exact(seq!['I'], u2, 12);
        lemma_no_match_second(u3, 11);
        lemma_no_match_second(u2, 11);
        lemma_no_match_second(u1, 11);
        lemma_machine_skip(u3, 11, 12);
        lemma_machine_skip(u2, 11, 12);
        lemma_machine_skip(u1, 11, 12);
        lemma_seq_sum_cons(atom_value(12), machine(e, 12, 1).1);
        lemma_seq_sum_cons(atom_value(12), machine(e, 12, 2).1);
        lemma_seq_sum_cons(atom_value(12), machine(e, 13, 0).1);
        lemma_seq_sum_cons(atom_value(12), machine(u3, 12, 1).1);
        lemma_seq_sum_cons(atom_value(12), machine(u3, 12, 2).1);
        lemma_seq_sum_cons(atom_value(12), machine(u2, 12, 1).1);
        if d == 5 {
            let t = seq!['V'] + e;
            lemma_no_match_second(t, 9);
            lemma_machine_skip(t, 9, 10);
            lemma_match_exact(seq!['V'], e, 10);
            lemma_no_match_first(e, 11);
            lemma_machine_skip(e, 11, 12);
            lemma_seq_sum_cons(atom_value(10), machine(e, 11, 0).1);
            assert(units_form(5) =~= t);
        } else {
            let tail = if d == 6 {
                u3
            } else if d == 7 {
                u2
            } else {
                u1
            };
            let t = seq!['V'] + tail;
            assert(t[0] == 'V' && t[1] == 'I');
            lemma_no_match_second(t, 9);
            lemma_machine_skip(t, 9, 10);
            lemma_match_exact(seq!['V'], tail, 10);
            lemma_machine_skip(tail, 11, 12);
            lemma_seq_sum_cons(atom_value(10), machine(tail, 11, 0).1);
            if d == 6 {
                assert(units_form(6) =~= t);
            } else if d == 7 {
                assert(units_form(7) =~= t);
            } else {
                assert(units_form(8) =~= t);
            }
        }
    }
}

#[verifier::rlimit(60)]
proof fn lemma_machine_tens(c: int, rest: Seq<char>)
    requires
        0 <= c <= 9,
        rest.len() > 0 ==> rest[0] == 'I' || rest[0] == 'V',
    ensures
        machine(tens_form(c) + rest, 5, 0).0 == machine(rest, 9, 0).0,
        seq_sum(machine(tens_form(c) + rest, 5, 0).1) == 10 * c + seq_sum(machine(rest, 9, 0).1),
{
    let t = tens_form(c) + rest;
    if c == 0 {
        assert(t =~= rest);
        lemma_no_match_first(rest, 5);
        lemma_no_match_first(rest, 6);
        lemma_no_match_first(rest, 7);
        lemma_no_match_first(rest, 8);
        lemma_machine_skip(rest, 5, 9);
    } else if c <= 3 {
        let t3 = seq!['X'] + rest;
        let t2 = seq!['X'] + t3;
        let t1 = seq!['X'] + t2;
        assert(t3.len() >= 1 && t3[0] == 'X');
        assert(t2.len() >= 2 && t2[0] == 'X' && t2[1] == 'X');
        assert(t1.len() >= 3 && t1[0] == 'X' && t1[1] == 'X');
        assert(rest.len() > 0 ==> t3[1] == rest[0]);
        lemma_no_match_first(rest, 8);
        lemma_match_exact(seq!['X'], rest, 8);
        lemma_match_exact(seq!['X'], t3, 8);
        lemma_match_exact(seq!['X'], t2, 8);
        lemma_seq_sum_cons(atom_value(8), machine(rest, 8, 1).1);
        lemma_seq_sum_cons(atom_value(8), machine(rest, 8, 2).1);
        lemma_seq_sum_cons(atom_value(8), machine(rest, 9, 0).1);
        lemma_seq_sum_cons(atom_value(8), machine(t3, 8, 1).1);
        lemma_seq_sum_cons(atom_value(8), machine(t3, 8, 2).1);
        lemma_seq_sum_cons(atom_value(8), machine(t2, 8, 1).1);
        if c == 1 {
            assert(t =~= t3);
            lemma_no_match_second(t3, 5);
            lemma_no_match_first(t3, 6);
            lemma_no_match_second(t3, 7);
            lemma_machine_skip(t3, 5, 8);
        } else if c == 2 {
            assert(t =~= t2);
            lemma_no_match_second(t2, 5);
            lemma_no_match_first(t2, 6);
            lemma_no_match_second(t2, 7);
            lemma_machine_skip(t2, 5, 8);
        } else {
            assert(t =~= t1);
            lemma_no_match_second(t1, 5);
            lemma_no_match_first(t1, 6);
            lemma_no_match_second(t1, 7);
            lemma_machine_skip(t1, 5, 8);
        }
    } else if c == 4 {
        assert(t.len() >= 2 && t[0] == 'X' && t[1] == 'L');
        lemma_no_match_second(t, 5);
        lemma_no_match_first(t, 6);
        lemma_machine_skip(t, 5, 7);
        lemma_match_exact(seq!['X', 'L'], rest, 7);
        lemma_no_match_first(rest, 8);
        lemma_machine_skip(rest, 8, 9);
        lemma_seq_sum_cons(atom_value(7), machine(rest, 8, 0).1);
    } else if c == 5 {
        assert(t.len() >= 1 && t[0] == 'L');
        lemma_no_match_first(t, 5);
        lemma_machine_skip(t, 5, 6);
        lemma_match_exact(seq!['L'], rest, 6);
        lemma_no_match_first(rest, 7);
        lemma_no_match_first(rest, 8);
        lemma_machine_skip(rest, 7, 9);
        lemma_seq_sum_cons(atom_value(6), machine(rest, 7, 0).1);
    } else if c <= 8 {
        let x3 = seq!['X'] + rest;
        let x2 = seq!['X'] + x3;
        let x1 = seq!['X'] + x2;
        let xt = if c == 6 {
            x3
        } else if c == 7 {
            x2
        } else {
            x1
        };
        assert(x3.len() >= 1 && x3[0] == 'X');
        assert(x2.len() >= 2 && x2[0] == 'X' && x2[1] == 'X');
        assert(x1.len() >= 3 && x1[0] == 'X' && x1[1] == 'X');
        assert(rest.len() > 0 ==> x3[1] == rest[0]);
        assert(t =~= seq!['L'] + xt);
        lemma_no_match_first(seq!['L'] + xt, 5);
        lemma_machine_skip(seq!['L'] + xt, 5, 6);
        lemma_match_exact(seq!['L'], xt, 6);
        lemma_no_match_second(xt, 7);
        lemma_machine_skip(xt, 7, 8);
        lemma_no_match_first(rest, 8);
        lemma_match_exact(seq!['X'], rest, 8);
        lemma_match_exact(seq!['X'], x3, 8);
        lemma_match_exact(seq!['X'], x2, 8);
        lemma_seq_sum_cons(atom_value(8), machine(rest, 8, 1).1);
        lemma_seq_sum_cons(atom_value(8), machine(rest, 8, 2).1);
        lemma_seq_sum_cons(atom_value(8), machine(rest, 9, 0).1);
        lemma_seq_sum_cons(atom_value(8), machine(x3, 8, 1).1);
        lemma_seq_sum_cons(atom_value(8), machine(x3, 8, 2).1);
        lemma_seq_sum_cons(atom_value(8), machine(x2, 8, 1).1);
        lemma_seq_sum_cons(atom_value(6), machine(xt, 7, 0).1);
    } else {
        lemma_match_exact(seq!['X', 'C'], rest, 5);
        lemma_no_match_first(rest, 6);
        lemma_no_match_first(rest, 7);
        lemma_no_match_first(rest, 8);
        lemma_machine_skip(rest, 6, 9);
        lemma_seq_sum_cons(atom_value(5), machine(rest, 6, 0).1);
    }
}

#[verifier::rlimit(60)]
proof fn lemma_machine_hundreds(b: int, rest: Seq<char>)
    requires
        0 <= b <= 9,
        rest.len() > 0 ==> rest[0] == 'X' || rest[0] == 'L' || rest[0] == 'I' || rest[0] == 'V',
    ensures
        machine(hundreds_form(b) + rest, 1, 0).0 == machine(rest, 5, 0).0,
        seq_sum(machine(hundreds_form(b) + rest, 1, 0).1) == 100 * b + seq_sum(
            machine(rest, 5, 0).1,
        ),
{
    let t = hundreds_form(b) + rest;
    if b == 0 {
        assert(t =~= rest);
        lemma_no_match_first(rest, 1);
        lemma_no_match_first(rest, 2);
        lemma_no_match_first(rest, 3);
        lemma_no_match_first(rest, 4);
        lemma_machine_skip(rest, 1, 5);
    } else if b <= 3 {
        let t3 = seq!['C'] + rest;
        let t2 = seq!['C'] + t3;
        let t1 = seq!['C'] + t2;
        assert(t3.len() >= 1 && t3[0] == 'C');
        assert(t2.len() >= 2 && t2[0] == 'C' && t2[1] == 'C');
        assert(t1.len() >= 3 && t1[0] == 'C' && t1[1] == 'C');
        assert(rest.len() > 0 ==> t3[1] == rest[0]);
        lemma_no_match_first(rest, 4);
        lemma_match_exact(seq!['C'], rest, 4);
        lemma_match_exact(seq!['C'], t3, 4);
        lemma_match_exact(seq!['C'], t2, 4);
        lemma_seq_sum_cons(atom_value(4), machine(rest, 4, 1).1);
        lemma_seq_sum_cons(atom_value(4), machine(rest, 4, 2).1);
        lemma_seq_sum_cons(atom_value(4), machine(rest, 5, 0).1);
        lemma_seq_sum_cons(atom_value(4), machine(t3, 4, 1).1);
        lemma_seq_sum_cons(atom_value(4), machine(t3, 4, 2).1);
        lemma_seq_sum_cons(atom_value(4), machine(t2, 4, 1).1);
        if b == 1 {
            assert(t =~= t3);
            lemma_no_match_second(t3, 1);
            lemma_no_match_first(t3, 2);
            lemma_no_match_second(t3, 3);
            lemma_machine_skip(t3, 1, 4);
        } else if b == 2 {
            assert(t =~= t2);
            lemma_no_match_second(t2, 1);
            lemma_no_match_first(t2, 2);
            lemma_no_match_second(t2, 3);
            lemma_machine_skip(t2, 1, 4);
        } else {
            assert(t =~= t1);
            lemma_no_match_second(t1, 1);
            lemma_no_match_first(t1, 2);
            lemma_no_match_second(t1, 3);
            lemma_machine_skip(t1, 1, 4);
        }
    } else if b == 4 {
        assert(t.len() >= 2 && t[0] == 'C' && t[1] == 'D');
        lemma_no_match_second(t, 1);
        lemma_no_match_first(t, 2);
        lemma_machine_skip(t, 1, 3);
        lemma_match_exact(seq!['C', 'D'], rest, 3);
        lemma_no_match_first(rest, 4);
        lemma_machine_skip(rest, 4, 5);
        lemma_seq_sum_cons(atom_value(3), machine(rest, 4, 0).1);
    } else if b == 5 {
        assert(t.len() >= 1 && t[0] == 'D');
        lemma_no_match_first(t, 1);
        lemma_machine_skip(t, 1, 2);
        lemma_match_exact(seq!['D'], rest, 2);
        lemma_no_match_first(rest, 3);
        lemma_no_match_first(rest, 4);
        lemma_machine_skip(rest, 3, 5);
        lemma_seq_sum_cons(atom_value(2), machine(rest, 3, 0).1);
    } else if b <= 8 {
        let x3 = seq!['C'] + rest;
        let x2 = seq!['C'] + x3;
        let x1 = seq!['C'] + x2;
        let xt = if b == 6 {
            x3
        } else if b == 7 {
            x2
        } else {
            x1
        };
        assert(x3.len() >= 1 && x3[0] == 'C');
        assert(x2.len() >= 2 && x2[0] == 'C' && x2[1] == 'C');
        assert(x1.len() >= 3 && x1[0] == 'C' && x1[1] == 'C');
        assert(rest.len() > 0 ==> x3[1] == rest[0]);
        assert(t =~= seq!['D'] + xt);
        lemma_no_match_first(seq!['D'] + xt, 1);
        lemma_machine_skip(seq!['D'] + xt, 1, 2);
        lemma_match_exact(seq!['D'], xt, 2);
        lemma_no_match_second(xt, 3);
        lemma_machine_skip(xt, 3, 4);
        lemma_no_match_first(rest, 4);
        lemma_match_exact(seq!['C'], rest, 4);
        lemma_match_exact(seq!['C'], x3, 4);
        lemma_match_exact(seq!['C'], x2, 4);
        lemma_seq_sum_cons(atom_value(4), machine(rest, 4, 1).1);
        lemma_seq_sum_cons(atom_value(4), machine(rest, 4, 2).1);
        lemma_seq_sum_cons(atom_value(4), machine(rest, 5, 0).1);
        lemma_seq_sum_cons(atom_value(4), machine(x3, 4, 1).1);
        lemma_seq_sum_cons(atom_value(4), machine(x3, 4, 2).1);
        lemma_seq_sum_cons(atom_value(4), machine(x2, 4, 1).1);
        lemma_seq_sum_cons(atom_value(2), machine(xt, 3, 0).1);
    } else {
        lemma_match_exact(seq!['C', 'M'], rest, 1);
        lemma_no_match_first(rest, 2);
        lemma_no_match_first(rest, 3);
        lemma_no_match_first(rest, 4);
        lemma_machine_skip(rest, 2, 5);
        lemma_seq_sum_cons(atom_value(1), machine(rest, 2, 0).1);
    }
}

proof fn lemma_machine_thousands(a: int, rest: Seq<char>)
    requires
        0 <= a <= 3,
        rest.len() > 0 ==> rest[0] != 'M',
    ensures
        machine(thousands_form(a) + rest, 0, 0).0 == machine(rest, 1, 0).0,
        seq_sum(machine(thousands_form(a) + rest, 0, 0).1) == 1000 * a + seq_sum(
            machine(rest, 1, 0).1,
        ),
{
    let t = thousands_form(a) + rest;
    let t3 = seq!['M'] + rest;
    let t2 = seq!['M'] + t3;
    let t1 = seq!['M'] + t2;
    lemma_no_match_first(rest, 0);
    lemma_match_exact(seq!['M'], rest, 0);
    lemma_match_exact(seq!['M'], t3, 0);
    lemma_match_exact(seq!['M'], t2, 0);
    lemma_seq_sum_cons(atom_value(0), machine(rest, 0, 1).1);
    lemma_seq_sum_cons(atom_value(0), machine(rest, 0, 2).1);
    lemma_seq_sum_cons(atom_value(0), machine(rest, 1, 0).1);
    lemma_seq_sum_cons(atom_value(0), machine(t3, 0, 1).1);
    lemma_seq_sum_cons(atom_value(0), machine(t3, 0, 2).1);
    lemma_seq_sum_cons(atom_value(0), machine(t2, 0, 1).1);
    if a == 0 {
        assert(t =~= rest);
        lemma_machine_skip(rest, 0, 1);
    } else if a == 1 {
        assert(t =~= t3);
    } else if a == 2 {
        assert(t =~= t2);
    } else {
        assert(t =~= t1);
    }
}

proof fn lemma_units_chars(d: int)
    requires
        0 <= d <= 9,
    ensures
        forall|t: int|
            0 <= t < units_form(d).len() ==> (#[trigger] units_form(d)[t] == 'I' || units_form(
                d,
            )[t] == 'V' || units_form(d)[t] == 'X'),
        d >= 1 <==> units_form(d).len() > 0,
        d >= 1 ==> (units_form(d)[0] == 'I' || units_form(d)[0] == 'V'),
{
    assert forall|t: int|
        0 <= t < units_form(d).len() implies (#[trigger] units_form(d)[t] == 'I' || units_form(
        d,
    )[t] == 'V' || units_form(d)[t] == 'X') by {
        let f = units_form(d);
        assert(f.len() > 0 ==> (f[0] == 'I' || f[0] == 'V'));
        assert(f.len() > 1 ==> (f[1] == 'I' || f[1] == 'V' || f[1] == 'X'));
        assert(f.len() > 2 ==> f[2] == 'I');
        assert(f.len() > 3 ==> f[3] == 'I');
    }
}

proof fn lemma_tens_chars(c: int)
    requires
        0 <= c <= 9,
    ensures
        forall|t: int|
            0 <= t < tens_form(c).len() ==> (#[trigger] tens_form(c)[t] == 'X' || tens_form(c)[t]
                == 'L' || tens_form(c)[t] == 'C'),
        c >= 1 <==> tens_form(c).len() > 0,
        c >= 1 ==> (tens_form(c)[0] == 'X' || tens_form(c)[0] == 'L'),
{
    assert forall|t: int|
        0 <= t < tens_form(c).len() implies (#[trigger] tens_form(c)[t] == 'X' || tens_form(c)[t]
        == 'L' || tens_form(c)[t] == 'C') by {
        let f = tens_form(c);
        assert(f.len() > 0 ==> (f[0] == 'X' || f[0] == 'L'));
        assert(f.len() > 1 ==> (f[1] == 'X' || f[1] == 'L' || f[1] == 'C'));
        assert(f.len() > 2 ==> f[2] == 'X');
        assert(f.len() > 3 ==> f[3] == 'X');
    }
}

proof fn lemma_hundreds_chars(b: int)
    requires
        0 <= b <= 9,
    ensures
        forall|t: int|
            0 <= t < hundreds_form(b).len() ==> (#[trigger] hundreds_form(b)[t] == 'C'
                || hundreds_form(b)[t] == 'D' || hundreds_form(b)[t] == 'M'),
        b >= 1 <==> hundreds_form(b).len() > 0,
        b >= 1 ==> (hundreds_form(b)[0] == 'C' || hundreds_form(b)[0] == 'D'),
{
    assert forall|t: int|
        0 <= t < hundreds_form(b).len() implies (#[trigger] hundreds_form(b)[t] == 'C'
        || hundreds_form(b)[t] == 'D' || hundreds_form(b)[t] == 'M') by {
        let f = hundreds_form(b);
        assert(f.len() > 0 ==> (f[0] == 'C' || f[0] == 'D'));
        assert(f.len() > 1 ==> (f[1] == 'C' || f[1] == 'D' || f[1] == 'M'));
        assert(f.len() > 2 ==> f[2] == 'C');
        assert(f.len() > 3 ==> f[3] == 'C');
    }
}

proof fn lemma_thousands_chars(a: int)
    requires
        0 <= a <= 3,
    ensures
        forall|t: int|
            0 <= t < thousands_form(a).len() ==> #[trigger] thousands_form(a)[t] == 'M',
        a >= 1 <==> thousands_form(a).len() > 0,
{
    assert forall|t: int|
        0 <= t < thousands_form(a).len() implies #[trigger] thousands_form(a)[t] == 'M' by {
        let f = thousands_form(a);
        assert(f.len() > 0 ==> f[0] == 'M');
        assert(f.len() > 1 ==> f[1] == 'M');
        assert(f.len() > 2 ==> f[2] == 'M');
    }
}

/// Round trip: every value within bounds encodes to a numeral that the
/// decoder normalizes to itself, accepts, and decodes back to the same value.
pub proof fn lemma_round_trip(n: int)
    requires
        1 <= n <= 3999,
    ensures
        spec_decode_ok(spec_encode(n)),
        spec_decode_value(spec_encode(n)) == n,
{
    let a = n / 1000;
    let b = (n % 1000) / 100;
    let c = (n % 100) / 10;
    let d = n % 10;
    assert(n == 1000 * a + 100 * b + 10 * c + d);
    assert(0 <= a <= 3 && 0 <= b <= 9 && 0 <= c <= 9 && 0 <= d <= 9);
    let u = units_form(d);
    let te = tens_form(c) + u;
    let h = hundreds_form(b) + te;
    let full = thousands_form(a) + h;
    lemma_encode_digits(a, b, c, d);
    assert(spec_encode(n) == full);
    lemma_units_chars(d);
    lemma_tens_chars(c);
    lemma_hundreds_chars(b);
    lemma_thousands_chars(a);
    assert(te.len() > 0 ==> (te[0] == 'X' || te[0] == 'L' || te[0] == 'I' || te[0] == 'V'));
    assert(h.len() > 0 ==> (h[0] == 'C' || h[0] == 'D' || h[0] == 'X' || h[0] == 'L' || h[0]
        == 'I' || h[0] == 'V'));
    lemma_machine_units(d);
    lemma_machine_tens(c, u);
    lemma_machine_hundreds(b, te);
    lemma_machine_thousands(a, h);
    assert(machine(full, 0, 0).0 == machine(u, 9, 0).0);
    assert(machine(full, 0, 0).0.len() == 0);
    assert(seq_sum(machine(full, 0, 0).1) == n);
    assert forall|t: int| 0 <= t < full.len() implies is_roman_char(#[trigger] full[t]) by {
        let ta = thousands_form(a).len() as int;
        let tb = hundreds_form(b).len() as int;
        let tc = tens_form(c).len() as int;
        if t < ta {
            assert(full[t] == thousands_form(a)[t]);
        } else if t < ta + tb {
            assert(full[t] == hundreds_form(b)[t - ta]);
        } else if t < ta + tb + tc {
            assert(full[t] == tens_form(c)[t - ta - tb]);
        } else {
            assert(full[t] == units_form(d)[t - ta - tb - tc]);
        }
    }
    assert(all_roman_chars(full));
    assert(full.len() > 0);
    lemma_normalize_roman(full);
}

/// Whether positions `j` through `j + k - 1` of `s` all hold the character `c`.
pub open spec fn run_at(s: Seq<char>, c: char, k: int, j: int) -> bool {
    forall|t: int| j <= t < j + k ==> s[t] == c
}

/// Whether `s` holds `k` consecutive occurrences of `c` anywhere.
pub open spec fn has_run(s: Seq<char>, c: char, k: int) -> bool {
    exists|j: int| 0 <= j && j + k <= s.len() && #[trigger] run_at(s, c, k, j)
}

proof fn lemma_no_run_short(s: Seq<char>, c: char, k: int)
    requires
        s.len() < k,
    ensures
        !has_run(s, c, k),
{
}

proof fn lemma_no_run_absent(s: Seq<char>, c: char, k: int)
    requires
        k >= 1,
        forall|i: int| 0 <= i < s.len() ==> s[i] != c,
    ensures
        !has_run(s, c, k),
{
    if has_run(s, c, k) {
        let j = choose|j: int| 0 <= j && j + k <= s.len() && run_at(s, c, k, j);
        assert(s[j] == c);
        assert(false);
    }
}

proof fn lemma_no_run_exactlen(s: Seq<char>, c: char, k: int)
    requires
        k >= 1,
        s.len() == k,
        s[0] != c,
    ensures
        !has_run(s, c, k),
{
    if has_run(s, c, k) {
        let j = choose|j: int| 0 <= j && j + k <= s.len() && run_at(s, c, k, j);
        assert(j == 0);
        assert(s[0] == c);
        assert(false);
    }
}

proof fn lemma_no_run_pairs(s: Seq<char>, c: char)
    requires
        forall|j: int| 0 <= j < s.len() - 1 ==> (s[j] != c || #[trigger] s[j + 1] != c),
    ensures
        !has_run(s, c, 2),
{
    if has_run(s, c, 2) {
        let j = choose|j: int| 0 <= j && j + 2 <= s.len() && run_at(s, c, 2, j);
        assert(s[j] == c && s[j + 1] == c);
        assert(false);
    }
}

proof fn lemma_no_run_concat(s1: Seq<char>, s2: Seq<char>, c: char, k: int)
    requires
        k >= 1,
        !has_run(s1, c, k),
        !has_run(s2, c, k),
        s2.len() > 0 ==> s2[0] != c,
    ensures
        !has_run(s1 + s2, c, k),
{
    let s = s1 + s2;
    if has_run(s, c, k) {
        let j = choose|j: int| 0 <= j && j + k <= s.len() && run_at(s, c, k, j);
        if j + k <= s1.len() {
            assert forall|t: int| j <= t < j + k implies s1[t] == c by {
                assert(s[t] == c);
            }
            assert(run_at(s1, c, k, j));
            assert(has_run(s1, c, k));
        } else if j >= s1.len() {
            let j2 = j - s1.len();
            assert forall|t: int| j2 <= t < j2 + k implies s2[t] == c by {
                assert(s[t + s1.len()] == c);
            }
            assert(run_at(s2, c, k, j2));
            assert(has_run(s2, c, k));
        } else {
            assert(s[s1.len() as int] == c);
            assert(s[s1.len() as int] == s2[0]);
        }
        assert(false);
    }
}

proof fn lemma_no_run_concat_absent(s1: Seq<char>, s2: Seq<char>, c: char, k: int)
    requires
        k >= 1,
        forall|i: int| 0 <= i < s1.len() ==> s1[i] != c,
    ensures
        !has_run(s2, c, k) ==> !has_run(s1 + s2, c, k),
{
    lemma_no_run_absent(s1, c, k);
    if s2.len() > 0 && s2[0] == c {
        // the boundary character is c, but then no run can reach back into s1,
        // so runs of the concatenation still lie entirely within s2
        if !has_run(s2, c, k) && has_run(s1 + s2, c, k) {
            let s = s1 + s2;
            let j = choose|j: int| 0 <= j && j + k <= s.len() && run_at(s, c, k, j);
            if j < s1.len() {
                assert(s[j] == c);
                assert(false);
            } else {
                let j2 = j - s1.len();
                assert forall|t: int| j2 <= t < j2 + k implies s2[t] == c by {
                    assert(s[t + s1.len()] == c);
                }
                assert(run_at(s2, c, k, j2));
                assert(false);
            }
        }
    } else {
        if !has_run(s2, c, k) {
            lemma_no_run_concat(s1, s2, c, k);
        }
    }
}

proof fn lemma_thousands_no_runs(a: int)
    requires
        0 <= a <= 3,
    ensures
        !has_run(thousands_form(a), 'M', 4),
{
    lemma_no_run_short(thousands_form(a), 'M', 4);
}

proof fn lemma_hundreds_no_runs(b: int)
    requires
        0 <= b <= 9,
    ensures
        !has_run(hundreds_form(b), 'M', 4),
        !has_run(hundreds_form(b), 'C', 4),
        !has_run(hundreds_form(b), 'D', 2),
{
    let f = hundreds_form(b);
    if b == 8 {
        assert(f.len() == 4 && f[0] == 'D' && f[1] == 'C' && f[2] == 'C' && f[3] == 'C');
        lemma_no_run_exactlen(f, 'M', 4);
        lemma_no_run_exactlen(f, 'C', 4);
    } else {
        lemma_no_run_short(f, 'M', 4);
        lemma_no_run_short(f, 'C', 4);
    }
    if f.len() < 2 {
        lemma_no_run_short(f, 'D', 2);
    } else {
        assert(f.len() > 1 ==> (f[0] != 'D' || f[1] != 'D'));
        assert(f.len() > 2 ==> (f[1] != 'D' || f[2] != 'D'));
        assert(f.len() > 3 ==> (f[2] != 'D' || f[3] != 'D'));
        lemma_no_run_pairs(f, 'D');
    }
}

proof fn lemma_tens_no_runs(c: int)
    requires
        0 <= c <= 9,
    ensures
        !has_run(tens_form(c), 'C', 4),
        !has_run(tens_form(c), 'X', 4),
        !has_run(tens_form(c), 'L', 2),
{
    let f = tens_form(c);
    if c == 8 {
        assert(f.len() == 4 && f[0] == 'L' && f[1] == 'X' && f[2] == 'X' && f[3] == 'X');
        lemma_no_run_exactlen(f, 'C', 4);
        lemma_no_run_exactlen(f, 'X', 4);
    } else {
        lemma_no_run_short(f, 'C', 4);
        lemma_no_run_short(f, 'X', 4);
    }
    if f.len() < 2 {
        lemma_no_run_short(f, 'L', 2);
    } else {
        assert(f.len() > 1 ==> (f[0] != 'L' || f[1] != 'L'));
        assert(f.len() > 2 ==> (f[1] != 'L' || f[2] != 'L'));
        assert(f.len() > 3 ==> (f[2] != 'L' || f[3] != 'L'));
        lemma_no_run_pairs(f, 'L');
    }
}

proof fn lemma_units_no_runs(d: int)
    requires
        0 <= d <= 9,
    ensures
        !has_run(units_form(d), 'X', 4),
        !has_run(units_form(d), 'I', 4),
        !has_run(units_form(d), 'V', 2),
{
    let f = units_form(d);
    if d == 8 {
        assert(f.len() == 4 && f[0] == 'V' && f[1] == 'I' && f[2] == 'I' && f[3] == 'I');
        lemma_no_run_exactlen(f, 'X', 4);
        lemma_no_run_exactlen(f, 'I', 4);
    } else {
        lemma_no_run_short(f, 'X', 4);
        lemma_no_run_short(f, 'I', 4);
    }
    if f.len() < 2 {
        lemma_no_run_short(f, 'V', 2);
    } else {
        assert(f.len() > 1 ==> (f[0] != 'V' || f[1] != 'V'));
        assert(f.len() > 2 ==> (f[1] != 'V' || f[2] != 'V'));
        assert(f.len() > 3 ==> (f[2] != 'V' || f[3] != 'V'));
        lemma_no_run_pairs(f, 'V');
    }
}

/// Canonical form: every encoded numeral is non-empty, uses the seven numeral
/// letters only, and never repeats M, C, X or I four times in a row nor D, L
/// or V twice in a row — so none of the forbidden groups ("IIII", "VV",
/// "XXXX", "LL", "CCCC", "DD", "MMMM") occurs anywhere in it.
pub proof fn lemma_canonical_form(n: int)
    requires
        1 <= n <= 3999,
    ensures
        spec_encode(n).len() > 0,
        all_roman_chars(spec_encode(n)),
        !has_run(spec_encode(n), 'M', 4),
        !has_run(spec_encode(n), 'D', 2),
        !has_run(spec_encode(n), 'C', 4),
        !has_run(spec_encode(n), 'L', 2),
        !has_run(spec_encode(n), 'X', 4),
        !has_run(spec_encode(n), 'V', 2),
        !has_run(spec_encode(n), 'I', 4),
{
    let a = n / 1000;
    let b = (n % 1000) / 100;
    let c = (n % 100) / 10;
    let d = n % 10;
    assert(n == 1000 * a + 100 * b + 10 * c + d);
    assert(0 <= a <= 3 && 0 <= b <= 9 && 0 <= c <= 9 && 0 <= d <= 9);
    let tf = thousands_form(a);
    let hf = hundreds_form(b);
    let cf = tens_form(c);
    let u = units_form(d);
    let te = cf + u;
    let h = hf + te;
    let full = tf + h;
    lemma_encode_digits(a, b, c, d);
    assert(spec_encode(n) == full);
    lemma_units_chars(d);
    lemma_tens_chars(c);
    lemma_hundreds_chars(b);
    lemma_thousands_chars(a);
    lemma_units_no_runs(d);
    lemma_tens_no_runs(c);
    lemma_hundreds_no_runs(b);
    lemma_thousands_no_runs(a);
    assert(full.len() > 0);
    assert forall|t: int| 0 <= t < full.len() implies is_roman_char(#[trigger] full[t]) by {
        if t < tf.len() {
            assert(full[t] == tf[t]);
        } else if t < tf.len() + hf.len() {
            assert(full[t] == hf[t - tf.len()]);
        } else if t < tf.len() + hf.len() + cf.len() {
            assert(full[t] == cf[t - tf.len() - hf.len()]);
        } else {
            assert(full[t] == u[t - tf.len() - hf.len() - cf.len()]);
        }
    }
    assert(all_roman_chars(full));
    // first characters of the suffixes
    assert(u.len() > 0 ==> (u[0] == 'I' || u[0] == 'V'));
    assert(te.len() > 0 ==> (te[0] == 'X' || te[0] == 'L' || te[0] == 'I' || te[0] == 'V'));
    assert(h.len() > 0 ==> (h[0] == 'C' || h[0] == 'D' || h[0] == 'X' || h[0] == 'L' || h[0]
        == 'I' || h[0] == 'V'));
    // which characters each block avoids entirely
    assert(forall|i: int| 0 <= i < u.len() ==> #[trigger] u[i] != 'M' && u[i] != 'D' && u[i]
        != 'C' && u[i] != 'L');
    assert(forall|i: int| 0 <= i < cf.len() ==> #[trigger] cf[i] != 'M' && cf[i] != 'D' && cf[i]
        != 'I' && cf[i] != 'V');
    assert(forall|i: int| 0 <= i < hf.len() ==> #[trigger] hf[i] != 'X' && hf[i] != 'L' && hf[i]
        != 'I' && hf[i] != 'V');
    assert(forall|i: int| 0 <= i < tf.len() ==> #[trigger] tf[i] != 'C' && tf[i] != 'D' && tf[i]
        != 'X' && tf[i] != 'L' && tf[i] != 'I' && tf[i] != 'V');
    assert forall|i: int| 0 <= i < te.len() implies #[trigger] te[i] != 'M' && te[i] != 'D' by {
        if i < cf.len() {
            assert(te[i] == cf[i]);
        } else {
            assert(te[i] == u[i - cf.len()]);
        }
    }
    // runs of I
    lemma_no_run_concat_absent(cf, u, 'I', 4);
    lemma_no_run_concat_absent(hf, te, 'I', 4);
    lemma_no_run_concat_absent(tf, h, 'I', 4);
    // runs of V
    lemma_no_run_concat_absent(cf, u, 'V', 2);
    lemma_no_run_concat_absent(hf, te, 'V', 2);
    lemma_no_run_concat_absent(tf, h, 'V', 2);
    // runs of X
    lemma_no_run_concat(cf, u, 'X', 4);
    lemma_no_run_concat_absent(hf, te, 'X', 4);
    lemma_no_run_concat_absent(tf, h, 'X', 4);
    // runs of L
    lemma_no_run_absent(u, 'L', 2);
    lemma_no_run_concat(cf, u, 'L', 2);
    lemma_no_run_concat_absent(hf, te, 'L', 2);
    lemma_no_run_concat_absent(tf, h, 'L', 2);
    // runs of C
    lemma_no_run_absent(u, 'C', 4);
    lemma_no_run_concat(cf, u, 'C', 4);
    lemma_no_run_concat(hf, te, 'C', 4);
    lemma_no_run_concat_absent(tf, h, 'C', 4);
    // runs of D
    lemma_no_run_absent(te, 'D', 2);
    lemma_no_run_concat(hf, te, 'D', 2);
    lemma_no_run_concat_absent(tf, h, 'D', 2);
    // runs of M
    lemma_no_run_absent(te, 'M', 4);
    lemma_no_run_concat(hf, te, 'M', 4);
    lemma_no_run_concat(tf, h, 'M', 4);
}

} // verus!
