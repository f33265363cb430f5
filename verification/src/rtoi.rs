//! Numeral-to-integer decoding.
//!
//! Decoding runs in three stages: normalization (trim surrounding whitespace,
//! upper-case letters), format validation (the text must be non-empty and use
//! only the seven numeral letters), and decomposition (a single forward pass
//! over the symbol table that consumes the text and records atom values).

use vstd::prelude::*;
use vstd::string::StringExecFns;

use crate::{
    atom_count, atom_max_group, atom_symbol, atom_value, atoms, wf_atom, wf_atoms, RomanNumeral,
    RomanNumeralError,
};

verus! {

/// Whether `c` has the Unicode `White_Space` property, the set of characters
/// that `str::trim` removes from the ends of a string.
pub open spec fn is_whitespace_char(c: char) -> bool {
    ||| c == '\u{0009}'
    ||| c == '\u{000A}'
    ||| c == '\u{000B}'
    ||| c == '\u{000C}'
    ||| c == '\u{000D}'
    ||| c == '\u{0020}'
    ||| c == '\u{0085}'
    ||| c == '\u{00A0}'
    ||| c == '\u{1680}'
    ||| ('\u{2000}' <= c && c <= '\u{200A}')
    ||| c == '\u{2028}'
    ||| c == '\u{2029}'
    ||| c == '\u{202F}'
    ||| c == '\u{205F}'
    ||| c == '\u{3000}'
}

fn is_whitespace_char_exec(c: char) -> (b: bool)
    ensures
        b == is_whitespace_char(c),
{
    c == '\u{0009}' || c == '\u{000A}' || c == '\u{000B}' || c == '\u{000C}' || c == '\u{000D}'
        || c == '\u{0020}' || c == '\u{0085}' || c == '\u{00A0}' || c == '\u{1680}' || ('\u{2000}'
        <= c && c <= '\u{200A}') || c == '\u{2028}' || c == '\u{2029}' || c == '\u{202F}' || c
        == '\u{205F}' || c == '\u{3000}'
}

/// The upper-case counterpart of `c`: ASCII letters `a` through `z` map to
/// `A` through `Z`, every other character stays as it is.
pub open spec fn upper_char(c: char) -> char {
    match c {
        'a' => 'A',
        'b' => 'B',
        'c' => 'C',
        'd' => 'D',
        'e' => 'E',
        'f' => 'F',
        'g' => 'G',
        'h' => 'H',
        'i' => 'I',
        'j' => 'J',
        'k' => 'K',
        'l' => 'L',
        'm' => 'M',
        'n' => 'N',
        'o' => 'O',
        'p' => 'P',
        'q' => 'Q',
        'r' => 'R',
        's' => 'S',
        't' => 'T',
        'u' => 'U',
        'v' => 'V',
        'w' => 'W',
        'x' => 'X',
        'y' => 'Y',
        'z' => 'Z',
        _ => c,
    }
}

fn upper_char_exec(c: char) -> (r: char)
    ensures
        r == upper_char(c),
{
    match c {
        'a' => 'A',
        'b' => 'B',
        'c' => 'C',
        'd' => 'D',
        'e' => 'E',
        'f' => 'F',
        'g' => 'G',
        'h' => 'H',
        'i' => 'I',
        'j' => 'J',
        'k' => 'K',
        'l' => 'L',
        'm' => 'M',
        'n' => 'N',
        'o' => 'O',
        'p' => 'P',
        'q' => 'Q',
        'r' => 'R',
        's' => 'S',
        't' => 'T',
        'u' => 'U',
        'v' => 'V',
        'w' => 'W',
        'x' => 'X',
        'y' => 'Y',
        'z' => 'Z',
        _ => c,
    }
}

/// `s` without its leading whitespace.
pub open spec fn trim_start(s: Seq<char>) -> Seq<char>
    decreases s.len(),
{
    if s.len() > 0 && is_whitespace_char(s[0]) {
        trim_start(s.drop_first())
    } else {
        s
    }
}

/// `s` without its trailing whitespace.
pub open spec fn trim_end(s: Seq<char>) -> Seq<char>
    decreases s.len(),
{
    if s.len() > 0 && is_whitespace_char(s[s.len() - 1]) {
        trim_end(s.drop_last())
    } else {
        s
    }
}

/// `s` without leading and trailing whitespace, as `str::trim` leaves it.
pub open spec fn spec_trim(s: Seq<char>) -> Seq<char> {
    trim_end(trim_start(s))
}

/// `s` with every ASCII letter upper-cased.
pub open spec fn spec_upper(s: Seq<char>) -> Seq<char> {
    s.map_values(|c: char| upper_char(c))
}

/// What the decoder works on: the input trimmed at both ends, then upper-cased.
pub open spec fn spec_normalize(s: Seq<char>) -> Seq<char> {
    spec_upper(spec_trim(s))
}

proof fn lemma_trim_start_skip(s: Seq<char>, k: int)
    requires
        0 <= k <= s.len(),
        forall|j: int| 0 <= j < k ==> is_whitespace_char(s[j]),
        k < s.len() ==> !is_whitespace_char(s[k]),
    ensures
        trim_start(s) == s.skip(k),
    decreases k,
{
    if k == 0 {
        assert(s.skip(0) =~= s);
    } else {
        lemma_trim_start_skip(s.drop_first(), k - 1);
        assert(s.drop_first().skip(k - 1) =~= s.skip(k));
    }
}

proof fn lemma_trim_end_take(s: Seq<char>, k: int)
    requires
        0 <= k <= s.len(),
        forall|j: int| k <= j < s.len() ==> is_whitespace_char(s[j]),
        k > 0 ==> !is_whitespace_char(s[k - 1]),
    ensures
        trim_end(s) == s.take(k),
    decreases s.len(),
{
    if s.len() > k {
        lemma_trim_end_take(s.drop_last(), k);
        assert(s.drop_last().take(k) =~= s.take(k));
    } else {
        assert(s.take(k) =~= s);
    }
}

/// Relies on String::push: appends one character at the end of the string.
#[verifier::external_body]
fn push_char(s: &mut String, c: char)
    ensures
        final (s)@ == old(s)@.push(c),
{
    s.push(c)
}

/// Trims surrounding whitespace and upper-cases every ASCII letter, the
/// normalization the decoder applies before validating its input.
pub fn normalize_numeral(numeral: &str) -> (r: String)
    ensures
        r@ == spec_normalize(numeral@),
{
    let n = numeral.unicode_len();
    let mut start: usize = 0;
    while start < n && is_whitespace_char_exec(numeral.get_char(start))
        invariant
            n == numeral@.len(),
            0 <= start <= n,
            forall|j: int| 0 <= j < start ==> is_whitespace_char(numeral@[j]),
        decreases n - start,
    {
        start = start + 1;
    }
    let mut end: usize = n;
    while end > start && is_whitespace_char_exec(numeral.get_char(end - 1))
        invariant
            n == numeral@.len(),
            0 <= start <= end <= n,
            forall|j: int| end <= j < n ==> is_whitespace_char(numeral@[j]),
        decreases end,
    {
        end = end - 1;
    }
    proof {
        lemma_trim_start_skip(numeral@, start as int);
        lemma_trim_end_take(numeral@.skip(start as int), end - start);
        assert(numeral@.skip(start as int).take(end - start) =~= numeral@.subrange(
            start as int,
            end as int,
        ));
        assert(spec_trim(numeral@) == numeral@.subrange(start as int, end as int));
    }
    let ghost trimmed: Seq<char> = spec_trim(numeral@);
    let mut out: String = String::new();
    let mut i: usize = start;
    while i < end
        invariant
            n == numeral@.len(),
            0 <= start <= i <= end <= n,
            trimmed == numeral@.subrange(start as int, end as int),
            out@ == spec_upper(trimmed).take(i - start),
        decreases end - i,
    {
        let c = numeral.get_char(i);
        let u = upper_char_exec(c);
        push_char(&mut out, u);
        proof {
            assert(trimmed[i - start] == numeral@[i as int]);
            assert(spec_upper(trimmed).take(i + 1 - start) =~= spec_upper(trimmed).take(
                i - start,
            ).push(upper_char(trimmed[i - start])));
        }
        i = i + 1;
    }
    proof {
        assert(spec_upper(trimmed).take(end - start) =~= spec_upper(trimmed));
    }
    out
}

/// Whether `c` is one of the seven letters a Roman numeral may use.
pub open spec fn is_roman_char(c: char) -> bool {
    c == 'I' || c == 'V' || c == 'X' || c == 'L' || c == 'C' || c == 'D' || c == 'M'
}

fn is_roman_char_exec(c: char) -> (b: bool)
    ensures
        b == is_roman_char(c),
{
    c == 'I' || c == 'V' || c == 'X' || c == 'L' || c == 'C' || c == 'D' || c == 'M'
}

/// Whether every character of `s` is a Roman numeral letter.
pub open spec fn all_roman_chars(s: Seq<char>) -> bool {
    forall|i: int| 0 <= i < s.len() ==> is_roman_char(#[trigger] s[i])
}

/// Validates the format of a normalized numeral: it must be non-empty and
/// consist of numeral letters only. An empty text is rejected with
/// [`RomanNumeralError::EmptyString`], one with any other character with
/// [`RomanNumeralError::Unparsable`] carrying the text itself.
pub fn check_numeral_format<'a>(numeral: &'a String) -> (r: Result<
    &'a String,
    RomanNumeralError,
>)
    ensures
        numeral@.len() == 0 ==> (r matches Err(e) && e == RomanNumeralError::EmptyString),
        numeral@.len() > 0 && !all_roman_chars(numeral@) ==> (r matches Err(e)
            && e matches RomanNumeralError::Unparsable(t) && t@ == numeral@),
        numeral@.len() > 0 && all_roman_chars(numeral@) ==> (r matches Ok(t) && t == numeral),
{
    if numeral.as_str().is_empty() {
        return Err(RomanNumeralError::EmptyString);
    }
    let n = numeral.as_str().unicode_len();
    let mut i: usize = 0;
    while i < n
        invariant
            n == numeral@.len(),
            0 <= i <= n,
            forall|j: int| 0 <= j < i ==> is_roman_char(#[trigger] numeral@[j]),
        decreases n - i,
    {
        if !is_roman_char_exec(numeral.as_str().get_char(i)) {
            return Err(RomanNumeralError::Unparsable(numeral.clone()));
        }
        i = i + 1;
    }
    Ok(numeral)
}

/// Whether `p` is a prefix of `t`.
pub open spec fn spec_starts_with(t: Seq<char>, p: Seq<char>) -> bool {
    p.len() <= t.len() && t.subrange(0, p.len() as int) == p
}

fn str_starts_with(text: &str, prefix: &str) -> (b: bool)
    ensures
        b == spec_starts_with(text@, prefix@),
{
    let n = prefix.unicode_len();
    let m = text.unicode_len();
    if n > m {
        return false;
    }
    let mut i: usize = 0;
    while i < n
        invariant
            n == prefix@.len(),
            m == text@.len(),
            n <= m,
            0 <= i <= n,
            forall|j: int| 0 <= j < i ==> text@[j] == prefix@[j],
        decreases n - i,
    {
        if text.get_char(i) != prefix.get_char(i) {
            proof {
                assert(text@.subrange(0, n as int)[i as int] != prefix@[i as int]);
            }
            return false;
        }
        i = i + 1;
    }
    proof {
        assert(text@.subrange(0, n as int) =~= prefix@);
    }
    true
}

/// The length of the symbol of the atom at index `i`.
pub open spec fn sym_len(i: int) -> int {
    atom_symbol(i).len() as int
}

/// Whether `text` starts with the symbol of the atom at index `i`.
pub open spec fn matches_at(text: Seq<char>, i: int) -> bool {
    spec_starts_with(text, atom_symbol(i))
}

/// The decomposition state machine, started at atom index `i` with `g`
/// occurrences of that atom's symbol already consumed: it walks the table
/// monotonically, consuming the symbol of the current atom from the front of
/// the text while it matches (staying on the same atom until its group is
/// full), and returns the unconsumed text together with the values of the
/// consumed atoms, in order.
pub open spec fn machine(text: Seq<char>, i: int, g: int) -> (Seq<char>, Seq<int>)
    decreases atom_count() - i, text.len(),
{
    if i < 0 || i >= atom_count() {
        (text, Seq::empty())
    } else if matches_at(text, i) {
        let rest = text.skip(sym_len(i));
        let r = if g + 1 >= atom_max_group(i) {
            machine(rest, i + 1, 0)
        } else {
            machine(rest, i, g + 1)
        };
        (r.0, seq![atom_value(i)] + r.1)
    } else {
        machine(text, i + 1, 0)
    }
}

/// The sum of a sequence of integers.
pub open spec fn seq_sum(s: Seq<int>) -> int
    decreases s.len(),
{
    if s.len() == 0 {
        0
    } else {
        s[0] + seq_sum(s.drop_first())
    }
}

/// The state of one decomposition pass: the symbol table, a cursor into it,
/// the unconsumed suffix of the text, and how many times the current atom's
/// symbol has been consumed consecutively.
pub struct ParseState {
    /// The symbol table the pass walks.
    pub numerals: Vec<RomanNumeral>,
    /// The index of the atom currently being tried; it only ever advances.
    pub numeral_pos: usize,
    /// The suffix of the text that has not been consumed yet.
    pub remaining_to_parse: String,
    /// How many times the current atom's symbol has been consumed in a row.
    pub group_size: u8,
}

impl ParseState {
    /// The state is intact: it holds the real table and the cursor is within it.
    pub open spec fn wf(&self) -> bool {
        &&& wf_atoms(self.numerals@)
        &&& 0 <= self.numeral_pos <= atom_count()
    }

    /// A fresh state: cursor on the first (largest) atom, nothing consumed.
    pub fn new(to_parse: &str) -> (s: Self)
        ensures
            s.wf(),
            s.numeral_pos == 0,
            s.group_size == 0,
            s.remaining_to_parse@ == to_parse@,
    {
        ParseState {
            numerals: atoms(),
            numeral_pos: 0,
            remaining_to_parse: String::from_str(to_parse),
            group_size: 0,
        }
    }

    /// The atom the cursor points at.
    pub fn current_numeral(&self) -> (r: &RomanNumeral)
        requires
            self.wf(),
            self.numeral_pos < atom_count(),
        ensures
            wf_atom(*r, self.numeral_pos as int),
    {
        &self.numerals[self.numeral_pos]
    }

    /// Moves the cursor to the next atom of the table and resets the group count.
    pub fn advance_numeral(&mut self)
        requires
            old(self).wf(),
            old(self).numeral_pos < atom_count(),
        ensures
            final (self).wf(),
            final (self).numerals@ == old(self).numerals@,
            final (self).numeral_pos == old(self).numeral_pos + 1,
            final (self).group_size == 0,
            final (self).remaining_to_parse@ == old(self).remaining_to_parse@,
    {
        self.numeral_pos = self.numeral_pos + 1;
        self.group_size = 0;
    }

    /// Whether the cursor has run off the end of the table.
    pub fn is_complete(&self) -> (b: bool)
        requires
            self.wf(),
        ensures
            b == (self.numeral_pos as int == atom_count()),
    {
        self.numeral_pos >= self.numerals.len()
    }

    /// Consumes one occurrence of the current atom's symbol from the front of
    /// the remaining text and counts it towards the current group.
    pub fn remove_current(&mut self)
        requires
            old(self).wf(),
            old(self).numeral_pos < atom_count(),
            matches_at(old(self).remaining_to_parse@, old(self).numeral_pos as int),
            old(self).group_size < 3,
        ensures
            final (self).wf(),
            final (self).numerals@ == old(self).numerals@,
            final (self).numeral_pos == old(self).numeral_pos,
            final (self).group_size == old(self).group_size + 1,
            final (self).remaining_to_parse@ == old(self).remaining_to_parse@.skip(
                sym_len(old(self).numeral_pos as int),
            ),
    {
        let sym = self.numerals[self.numeral_pos].symbol;
        let skip = sym.unicode_len();
        let total = self.remaining_to_parse.as_str().unicode_len();
        let rest = self.remaining_to_parse.as_str().substring_char(skip, total);
        let new_remaining = String::from_str(rest);
        self.remaining_to_parse = new_remaining;
        self.group_size = self.group_size + 1;
        proof {
            assert(final (self).remaining_to_parse@ =~= old(self).remaining_to_parse@.skip(
                sym_len(old(self).numeral_pos as int),
            ));
        }
    }
}

/// The values of a digit vector, as mathematical integers.
pub open spec fn digit_values(v: Seq<u32>) -> Seq<int> {
    v.map_values(|x: u32| x as int)
}

/// Decomposes a normalized, format-checked numeral into the values of its
/// atoms, by one forward pass of the [`machine`] over the symbol table. When
/// the pass cannot consume the whole text, the numeral is malformed and is
/// rejected with [`RomanNumeralError::Unparsable`] carrying the text.
pub fn decompose_numeral(numeral: &str) -> (r: Result<Vec<u32>, RomanNumeralError>)
    ensures
        machine(numeral@, 0, 0).0.len() == 0 ==> (r matches Ok(v) && digit_values(v@) == machine(
            numeral@,
            0,
            0,
        ).1),
        machine(numeral@, 0, 0).0.len() > 0 ==> (r matches Err(e)
            && e matches RomanNumeralError::Unparsable(t) && t@ == numeral@),
{
    let mut parse_state = ParseState::new(numeral);
    let mut result: Vec<u32> = Vec::new();
    while !parse_state.is_complete()
        invariant
            parse_state.wf(),
            parse_state.numeral_pos < atom_count() ==> (parse_state.group_size as int)
                < atom_max_group(parse_state.numeral_pos as int),
            machine(numeral@, 0, 0).0 == machine(
                parse_state.remaining_to_parse@,
                parse_state.numeral_pos as int,
                parse_state.group_size as int,
            ).0,
            machine(numeral@, 0, 0).1 == digit_values(result@) + machine(
                parse_state.remaining_to_parse@,
                parse_state.numeral_pos as int,
                parse_state.group_size as int,
            ).1,
        decreases
                atom_count() - parse_state.numeral_pos,
                parse_state.remaining_to_parse@.len(),
    {
        let ghost text = parse_state.remaining_to_parse@;
        let ghost i = parse_state.numeral_pos as int;
        let ghost g = parse_state.group_size as int;
        let ghost digits_before = result@;
        let sym = parse_state.current_numeral().symbol;
        if str_starts_with(parse_state.remaining_to_parse.as_str(), sym) {
            result.push(parse_state.current_numeral().value);
            parse_state.remove_current();
            if parse_state.current_numeral().max_group == parse_state.group_size {
                parse_state.advance_numeral();
            }
            proof {
                assert(matches_at(text, i));
                assert(digit_values(result@) =~= digit_values(digits_before).push(
                    atom_value(i),
                ));
                assert(digit_values(digits_before) + (seq![atom_value(i)] + machine(
                    parse_state.remaining_to_parse@,
                    parse_state.numeral_pos as int,
                    parse_state.group_size as int,
                ).1) =~= digit_values(result@) + machine(
                    parse_state.remaining_to_parse@,
                    parse_state.numeral_pos as int,
                    parse_state.group_size as int,
                ).1);
            }
        } else {
            parse_state.advance_numeral();
            proof {
                assert(!matches_at(text, i));
            }
        }
    }
    if parse_state.remaining_to_parse.as_str().is_empty() {
        proof {
            assert(digit_values(result@) + Seq::<int>::empty() =~= digit_values(result@));
        }
        Ok(result)
    } else {
        Err(RomanNumeralError::Unparsable(String::from_str(numeral)))
    }
}

/// The largest sum the machine can still produce from atom index `i` on:
/// each remaining atom contributes its value at most `max_group` times.
pub open spec fn suffix_cap(i: int) -> int
    decreases atom_count() - i,
{
    if i < 0 || i >= atom_count() {
        0
    } else {
        atom_max_group(i) * atom_value(i) + suffix_cap(i + 1)
    }
}

/// Summing a value-sequence that starts with `v` adds `v` to the sum of the rest.
pub proof fn lemma_seq_sum_cons(v: int, s: Seq<int>)
    ensures
        seq_sum(seq![v] + s) == v + seq_sum(s),
{
    assert((seq![v] + s).drop_first() =~= s);
    assert((seq![v] + s)[0] == v);
}

proof fn lemma_seq_sum_snoc(s: Seq<int>, x: int)
    ensures
        seq_sum(s.push(x)) == seq_sum(s) + x,
    decreases s.len(),
{
    reveal_with_fuel(seq_sum, 2);
    if s.len() == 0 {
        assert(s.push(x)[0] == x);
        assert(s.push(x).drop_first() =~= Seq::<int>::empty());
    } else {
        lemma_seq_sum_snoc(s.drop_first(), x);
        assert(s.push(x)[0] == s[0]);
        assert(s.push(x).drop_first() =~= s.drop_first().push(x));
    }
}

proof fn lemma_seq_sum_prefix_le(s: Seq<int>, k: int)
    requires
        0 <= k <= s.len(),
        forall|j: int| 0 <= j < s.len() ==> s[j] >= 0,
    ensures
        seq_sum(s.take(k)) <= seq_sum(s),
    decreases s.len() - k,
{
    if k == s.len() {
        assert(s.take(k) =~= s);
    } else {
        assert(s.take(k + 1) =~= s.take(k).push(s[k]));
        lemma_seq_sum_snoc(s.take(k), s[k]);
        lemma_seq_sum_prefix_le(s, k + 1);
    }
}

/// Whatever the machine consumes sums to no more than the capacity left in
/// the table; in particular a full pass from the start sums to at most
/// `suffix_cap(0)`, which is 5331.
pub proof fn lemma_machine_sum(text: Seq<char>, i: int, g: int)
    requires
        0 <= i <= atom_count(),
        0 <= g,
        i < atom_count() ==> g < atom_max_group(i),
        i == atom_count() ==> g == 0,
    ensures
        0 <= seq_sum(machine(text, i, g).1),
        seq_sum(machine(text, i, g).1) + g * atom_value(i) <= suffix_cap(i),
    decreases atom_count() - i, text.len(),
{
    if i >= atom_count() {
    } else if matches_at(text, i) {
        let rest = text.skip(sym_len(i));
        if g + 1 >= atom_max_group(i) {
            lemma_machine_sum(rest, i + 1, 0);
            lemma_seq_sum_cons(atom_value(i), machine(rest, i + 1, 0).1);
            assert((g + 1) * atom_value(i) == atom_max_group(i) * atom_value(i));
        } else {
            lemma_machine_sum(rest, i, g + 1);
            lemma_seq_sum_cons(atom_value(i), machine(rest, i, g + 1).1);
            assert((g + 1) * atom_value(i) == g * atom_value(i) + atom_value(i));
        }
    } else {
        lemma_machine_sum(text, i + 1, 0);
        assert(g * atom_value(i) <= atom_max_group(i) * atom_value(i));
    }
}

/// Whether `s` decodes successfully: after normalization it is non-empty,
/// uses numeral letters only, and the machine consumes all of it.
pub open spec fn spec_decode_ok(s: Seq<char>) -> bool {
    let n = spec_normalize(s);
    n.len() > 0 && all_roman_chars(n) && machine(n, 0, 0).0.len() == 0
}

/// The integer a successfully decoded `s` denotes: the sum of the values of
/// the atoms the machine consumed.
pub open spec fn spec_decode_value(s: Seq<char>) -> int {
    seq_sum(machine(spec_normalize(s), 0, 0).1)
}

/// Converts a string representing a Roman numeral into an integer.
///
/// The input may use upper- or lower-case letters, and surrounding whitespace
/// is trimmed before parsing. A normalized input that is empty is rejected
/// with [`RomanNumeralError::EmptyString`]; one that holds a character other
/// than the seven numeral letters, or that the decomposition pass cannot
/// consume completely, is rejected with [`RomanNumeralError::Unparsable`]
/// carrying the normalized text. Every other input is accepted, and the
/// result is the sum of the values of the consumed atoms, [`spec_decode_value`].
pub fn roman_to_integer(numeral: &str) -> (r: Result<u32, RomanNumeralError>)
    ensures
        spec_normalize(numeral@).len() == 0 ==> (r matches Err(e) && e
            == RomanNumeralError::EmptyString),
        spec_normalize(numeral@).len() > 0 && !spec_decode_ok(numeral@) ==> (r matches Err(e)
            && e matches RomanNumeralError::Unparsable(t) && t@ == spec_normalize(numeral@)),
        spec_decode_ok(numeral@) ==> (r matches Ok(v) && v as int == spec_decode_value(numeral@)),
{
    let normalized = normalize_numeral(numeral);
    let checked = match check_numeral_format(&normalized) {
        Ok(t) => t,
        Err(e) => {
            return Err(e);
        },
    };
    let digits: Vec<u32> = match decompose_numeral(checked.as_str()) {
        Ok(d) => d,
        Err(e) => {
            return Err(e);
        },
    };
    let ghost ds = digit_values(digits@);
    proof {
        lemma_machine_sum(normalized@, 0, 0);
        assert(suffix_cap(0) == 5331) by {
            reveal_with_fuel(suffix_cap, 14);
        }
    }
    let mut total: u32 = 0;
    let mut idx: usize = 0;
    while idx < digits.len()
        invariant
            ds == digit_values(digits@),
            ds == machine(spec_normalize(numeral@), 0, 0).1,
            0 <= idx <= digits.len(),
            total == seq_sum(ds.take(idx as int)),
            seq_sum(ds) <= 5331,
        decreases digits.len() - idx,
    {
        proof {
            assert(forall|j: int| 0 <= j < ds.len() ==> ds[j] >= 0);
            lemma_seq_sum_prefix_le(ds, idx + 1);
            assert(ds.take(idx + 1) =~= ds.take(idx as int).push(ds[idx as int]));
            lemma_seq_sum_snoc(ds.take(idx as int), ds[idx as int]);
        }
        total = total + digits[idx];
        idx = idx + 1;
    }
    proof {
        assert(ds.take(digits.len() as int) =~= ds);
    }
    Ok(total)
}

proof fn lemma_upper_char_ws(c: char)
    ensures
        is_whitespace_char(upper_char(c)) == is_whitespace_char(c),
{
}

proof fn lemma_upper_char_idempotent(c: char)
    ensures
        upper_char(upper_char(c)) == upper_char(c),
{
}

proof fn lemma_trim_start_head(s: Seq<char>)
    ensures
        trim_start(s).len() <= s.len(),
        trim_start(s).len() > 0 ==> !is_whitespace_char(trim_start(s)[0]),
    decreases s.len(),
{
    if s.len() > 0 && is_whitespace_char(s[0]) {
        lemma_trim_start_head(s.drop_first());
    }
}

proof fn lemma_trim_end_props(s: Seq<char>)
    ensures
        trim_end(s).len() <= s.len(),
        trim_end(s).len() > 0 ==> !is_whitespace_char(trim_end(s)[trim_end(s).len() - 1]),
        trim_end(s).len() > 0 ==> trim_end(s)[0] == s[0],
    decreases s.len(),
{
    if s.len() > 0 && is_whitespace_char(s[s.len() - 1]) {
        lemma_trim_end_props(s.drop_last());
    }
}

proof fn lemma_trim_of_clean(s: Seq<char>)
    requires
        s.len() > 0 ==> !is_whitespace_char(s[0]),
        s.len() > 0 ==> !is_whitespace_char(s[s.len() - 1]),
    ensures
        spec_trim(s) == s,
{
}

/// Normalization is idempotent: trimming and upper-casing an already
/// normalized text changes nothing. Hence decoding an input and decoding its
/// trimmed, upper-cased form always agree, in value and in error kind.
pub proof fn lemma_normalize_idempotent(s: Seq<char>)
    ensures
        spec_normalize(spec_normalize(s)) == spec_normalize(s),
        spec_decode_ok(spec_normalize(s)) == spec_decode_ok(s),
        spec_decode_value(spec_normalize(s)) == spec_decode_value(s),
{
    let t = spec_trim(s);
    let u = spec_normalize(s);
    if u.len() > 0 {
        lemma_trim_start_head(s);
        lemma_trim_end_props(trim_start(s));
        assert(!is_whitespace_char(t[0]));
        assert(!is_whitespace_char(t[t.len() - 1]));
        lemma_upper_char_ws(t[0]);
        lemma_upper_char_ws(t[t.len() - 1]);
        assert(u[0] == upper_char(t[0]));
        assert(u[u.len() - 1] == upper_char(t[t.len() - 1]));
    }
    lemma_trim_of_clean(u);
    assert forall|k: int| 0 <= k < u.len() implies spec_upper(u)[k] == u[k] by {
        lemma_upper_char_idempotent(t[k]);
    }
    assert(spec_upper(u) =~= u);
    assert(spec_normalize(u) == u);
}

/// Normalization leaves a text made of numeral letters unchanged: such a text
/// has no surrounding whitespace and no lower-case letters.
pub proof fn lemma_normalize_roman(s: Seq<char>)
    requires
        all_roman_chars(s),
    ensures
        spec_normalize(s) == s,
{
    if s.len() > 0 {
        assert(is_roman_char(s[0]) && is_roman_char(s[s.len() - 1]));
    }
    lemma_trim_of_clean(s);
    assert forall|k: int| 0 <= k < s.len() implies spec_upper(s)[k] == s[k] by {
        assert(is_roman_char(s[k]));
    }
    assert(spec_upper(s) =~= s);
}

} // verus!
