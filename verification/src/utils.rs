//! Byte counts in the short form that people read.

use vstd::prelude::*;

verus! {

/// `String::push` of the standard library: the string is longer by the
/// character.
pub assume_specification[ String::push ](s: &mut String, ch: char)
    ensures
        final(s)@ == old(s)@.push(ch),
;

/// The factor between one unit and the next that a unit mode asks for: 1000
/// for `si`, 1024 for an empty mode, for a mode with an `i` in it and for a
/// mode that is one byte long, which is one ASCII character, and 1000 for any
/// other.
pub open spec fn type_of_thousand(mode: Seq<char>) -> u64 {
    if mode.len() == 0 {
        1024
    } else if mode == seq!['s', 'i'] {
        1000
    } else if mode.contains('i') || (mode.len() == 1 && mode[0] as u32 <= 0x7f) {
        1024
    } else {
        1000
    }
}

/// The number of unit steps above the byte that a lower-case unit letter
/// names, with the letter that is printed for it.
pub open spec fn unit_of(letter: char) -> Option<(nat, char)> {
    if letter == 'p' {
        Some((5, 'P'))
    } else if letter == 't' {
        Some((4, 'T'))
    } else if letter == 'g' {
        Some((3, 'G'))
    } else if letter == 'm' {
        Some((2, 'M'))
    } else if letter == 'k' {
        Some((1, 'K'))
    } else {
        None
    }
}

/// `base` to the power of `exp`.
pub open spec fn power(base: nat, exp: nat) -> nat
    decreases exp,
{
    if exp == 0 {
        1
    } else {
        base * power(base, (exp - 1) as nat)
    }
}

/// The unit that a mode fixes, as the number of bytes in it and its letter:
/// the byte for a mode that begins with `b`, the unit named by the first
/// letter for a mode that begins with one of `p`, `t`, `g`, `m`, `k`, and
/// none for any other mode.
pub open spec fn number_format(mode: Seq<char>) -> Option<(u64, char)> {
    if mode.len() == 0 {
        None
    } else if mode[0] == 'b' {
        Some((1, 'B'))
    } else {
        match unit_of(mode[0]) {
            Some((exp, letter)) => Some((power(type_of_thousand(mode) as nat, exp) as u64, letter)),
            None => None,
        }
    }
}

/// How a byte count is written: a whole number with a unit letter, or a
/// number with one decimal place.
#[derive(Debug, Clone, Copy, PartialEq, Eq)]
pub enum HrForm {
    /// `value` followed by `unit`.
    Whole {
        /// The number to write.
        value: u64,
        /// The letter of the unit.
        unit: char,
    },
    /// `size` divided by `marker`, with one decimal place, followed by
    /// `unit`. The quotient is at least one and less than ten.
    Tenths {
        /// The size in bytes.
        size: u64,
        /// The number of bytes in the unit.
        marker: u64,
        /// The letter of the unit.
        unit: char,
    },
}

/// The form of `size` in the largest unit, of those at `exp` steps above the
/// byte or fewer, of which `size` holds at least one; in bytes where it holds
/// none. Less than ten of a unit are written with a decimal place.
pub open spec fn scaled(size: u64, base: u64, exp: nat) -> HrForm
    decreases exp,
{
    if exp == 0 {
        HrForm::Whole { value: size, unit: 'B' }
    } else {
        let marker = power(base as nat, exp);
        if size >= marker {
            if size / (marker as u64) < 10 {
                HrForm::Tenths { size, marker: marker as u64, unit: letter_of(exp) }
            } else {
                HrForm::Whole { value: size / (marker as u64), unit: letter_of(exp) }
            }
        } else {
            scaled(size, base, (exp - 1) as nat)
        }
    }
}

/// The letter of the unit at `exp` steps above the byte.
pub open spec fn letter_of(exp: nat) -> char {
    if exp == 5 {
        'P'
    } else if exp == 4 {
        'T'
    } else if exp == 3 {
        'G'
    } else if exp == 2 {
        'M'
    } else {
        'K'
    }
}

/// The form in which a byte count is written under a unit mode: in the unit
/// that the mode fixes, the count divided down to a whole number; else in the
/// largest unit that fits, see `scaled`.
pub open spec fn form_of(size: u64, mode: Seq<char>) -> HrForm {
    match number_format(mode) {
        Some((x, u)) => HrForm::Whole { value: size / x, unit: u },
        None => scaled(size, type_of_thousand(mode), 5),
    }
}

/// The decimal digits of a number, the first digit first.
pub open spec fn decimal_text(n: nat) -> Seq<char>
    decreases n,
{
    if n < 10 {
        seq![('0' as u32 + n) as char]
    } else {
        decimal_text(n / 10).push(('0' as u32 + n % 10) as char)
    }
}

/// What a form that is a whole number reads; a form with a decimal place has
/// no text here.
pub open spec fn whole_text(form: HrForm) -> Option<Seq<char>> {
    match form {
        HrForm::Whole { value, unit } => Some(decimal_text(value as nat).push(unit)),
        HrForm::Tenths { .. } => None,
    }
}

/// A unit of five steps of at most 1024 is between one and 1024 to the fifth.
proof fn lemma_power_bound(base: nat, exp: nat)
    requires
        1 <= base <= 1024,
        exp <= 5,
    ensures
        1 <= power(base, exp) <= 1125899906842624,
        exp <= 4 ==> power(base, exp) <= 1099511627776,
    decreases exp,
{
    reveal_with_fuel(power, 6);
    let b2 = base * base;
    let b3 = b2 * base;
    let b4 = b3 * base;
    let b5 = b4 * base;
    assert(1 <= b2 <= 1048576) by (nonlinear_arith)
        requires
            b2 == base * base,
            1 <= base <= 1024,
    ;
    assert(1 <= b3 <= 1073741824) by (nonlinear_arith)
        requires
            b3 == b2 * base,
            1 <= b2 <= 1048576,
            1 <= base <= 1024,
    ;
    assert(1 <= b4 <= 1099511627776) by (nonlinear_arith)
        requires
            b4 == b3 * base,
            1 <= b3 <= 1073741824,
            1 <= base <= 1024,
    ;
    assert(1 <= b5 <= 1125899906842624) by (nonlinear_arith)
        requires
            b5 == b4 * base,
            1 <= b4 <= 1099511627776,
            1 <= base <= 1024,
    ;
    assert(power(base, 1) == base) by (nonlinear_arith)
        requires
            power(base, 1) == base * 1,
    ;
    assert(power(base, 2) == b2) by (nonlinear_arith)
        requires
            power(base, 2) == base * power(base, 1),
            power(base, 1) == base,
            b2 == base * base,
    ;
    assert(power(base, 3) == b3) by (nonlinear_arith)
        requires
            power(base, 3) == base * power(base, 2),
            power(base, 2) == b2,
            b3 == b2 * base,
    ;
    assert(power(base, 4) == b4) by (nonlinear_arith)
        requires
            power(base, 4) == base * power(base, 3),
            power(base, 3) == b3,
            b4 == b3 * base,
    ;
    assert(power(base, 5) == b5) by (nonlinear_arith)
        requires
            power(base, 5) == base * power(base, 4),
            power(base, 4) == b4,
            b5 == b4 * base,
    ;
}

/// Whether `letter` is the first character of `text`.
fn starts_with(text: &str, letter: char) -> (found: bool)
    ensures
        found == (text@.len() > 0 && text@[0] == letter),
{
    !text.is_empty() && text.get_char(0) == letter
}

/// Whether `letter` occurs in `text`.
fn has_char(text: &str, letter: char) -> (found: bool)
    ensures
        found == text@.contains(letter),
{
    let len = text.unicode_len();
    let mut i: usize = 0;
    while i < len
        invariant
            i <= len,
            len == text@.len(),
            forall|j: int| 0 <= j < i ==> text@[j] != letter,
        decreases len - i,
    {
        if text.get_char(i) == letter {
            return true;
        }
        i += 1;
    }
    false
}

/// Whether `text` reads `si`.
fn is_si(text: &str) -> (yes: bool)
    ensures
        yes == (text@ == seq!['s', 'i']),
{
    if text.unicode_len() == 2 {
        let yes = text.get_char(0) == 's' && text.get_char(1) == 'i';
        assert(yes ==> text@ =~= seq!['s', 'i']);
        yes
    } else {
        false
    }
}

/// Whether `text` is one byte long.
fn is_one_byte(text: &str) -> (yes: bool)
    ensures
        yes == (text@.len() == 1 && text@[0] as u32 <= 0x7f),
{
    text.unicode_len() == 1 && text.get_char(0) as u32 <= 0x7f
}

/// If we are working with SI units or not: see `type_of_thousand`.
pub fn get_type_of_thousand(output_str: &str) -> (thousand: u64)
    ensures
        thousand == type_of_thousand(output_str@),
        thousand == 1000 || thousand == 1024,
{
    if output_str.is_empty() {
        1024
    } else if is_si(output_str) {
        1000
    } else if has_char(output_str, 'i') || is_one_byte(output_str) {
        1024
    } else {
        1000
    }
}

/// The number of bytes in the unit at `exp` steps above the byte.
fn marker_of(thousand: u64, exp: usize) -> (marker: u64)
    requires
        1 <= thousand <= 1024,
        exp <= 5,
    ensures
        marker == power(thousand as nat, exp as nat),
        marker >= 1,
{
    let mut marker: u64 = 1;
    let mut k: usize = 0;
    while k < exp
        invariant
            k <= exp <= 5,
            1 <= thousand <= 1024,
            marker == power(thousand as nat, k as nat),
        decreases exp - k,
    {
        proof {
            lemma_power_bound(thousand as nat, k as nat);
            lemma_power_bound(thousand as nat, (k + 1) as nat);
            assert(power(thousand as nat, (k + 1) as nat) == thousand * power(
                thousand as nat,
                k as nat,
            ));
            assert(marker * thousand == thousand * marker) by (nonlinear_arith);
        }
        marker = marker * thousand;
        k += 1;
    }
    proof {
        lemma_power_bound(thousand as nat, exp as nat);
    }
    marker
}

/// The lower-case letter that names the unit at `exp` steps above the byte,
/// and the letter that is printed for it.
fn unit_letters(exp: usize) -> (letters: (char, char))
    requires
        1 <= exp <= 5,
    ensures
        unit_of(letters.0) == Some((exp as nat, letters.1)),
        letters.1 == letter_of(exp as nat),
{
    if exp == 5 {
        ('p', 'P')
    } else if exp == 4 {
        ('t', 'T')
    } else if exp == 3 {
        ('g', 'G')
    } else if exp == 2 {
        ('m', 'M')
    } else {
        ('k', 'K')
    }
}

/// Whether a mode begins with the letter of the unit at `exp` steps above the
/// byte.
spec fn begins_with_unit(mode: Seq<char>, exp: nat) -> bool {
    mode.len() > 0 && unit_of(mode[0]) == Some((exp, letter_of(exp)))
}

/// The unit that a mode fixes: see `number_format`.
pub fn get_number_format(output_str: &str) -> (format: Option<(u64, char)>)
    ensures
        format == number_format(output_str@),
        format matches Some((marker, _)) ==> marker >= 1,
{
    if starts_with(output_str, 'b') {
        return Some((1, 'B'));
    }
    let mut exp: usize = 5;
    while exp > 0
        invariant
            exp <= 5,
            !(output_str@.len() > 0 && output_str@[0] == 'b'),
            forall|e: nat| exp < e <= 5 ==> !#[trigger] begins_with_unit(output_str@, e),
        decreases exp,
    {
        let (lower, upper) = unit_letters(exp);
        if starts_with(output_str, lower) {
            let marker = marker_of(get_type_of_thousand(output_str), exp);
            return Some((marker, upper));
        }
        assert(!begins_with_unit(output_str@, exp as nat));
        exp -= 1;
    }
    proof {
        if output_str@.len() > 0 {
            let found = unit_of(output_str@[0]);
            if let Some((e, letter)) = found {
                assert(1 <= e <= 5 && letter == letter_of(e));
                assert(begins_with_unit(output_str@, e));
            }
        }
    }
    None
}

/// A struct to represent a human-readable number.
#[derive(Debug, Clone, Copy)]
pub struct Hr<'a>(u64, &'a str);

impl<'a> Hr<'a> {
    /// The byte count.
    pub closed spec fn size(&self) -> u64 {
        self.0
    }

    /// The unit mode.
    pub closed spec fn mode(&self) -> Seq<char> {
        self.1@
    }

    /// The form in which the number is written: see `form_of`.
    pub fn form(&self) -> (form: HrForm)
        ensures
            form == form_of(self.size(), self.mode()),
    {
        let size = self.0;
        match get_number_format(self.1) {
            Some((x, u)) => HrForm::Whole { value: size / x, unit: u },
            None => {
                let thousand = get_type_of_thousand(self.1);
                let mut exp: usize = 5;
                while exp > 0
                    invariant
                        exp <= 5,
                        thousand == 1000 || thousand == 1024,
                        size == self.size(),
                        form_of(size, self.mode()) == scaled(size, thousand, exp as nat),
                    decreases exp,
                {
                    let marker = marker_of(thousand, exp);
                    let (_, unit) = unit_letters(exp);
                    if size >= marker {
                        if size / marker < 10 {
                            return HrForm::Tenths { size, marker, unit };
                        } else {
                            return HrForm::Whole { value: size / marker, unit };
                        }
                    }
                    exp -= 1;
                }
                HrForm::Whole { value: size, unit: 'B' }
            },
        }
    }
}

/// Converts a number to a human-readable format.
/// output_str: `si` for units of 1000 and an empty mode for units of 1024,
/// each in the largest unit that fits; a mode that begins with `b` for
/// bytes; a mode that begins with `p`, `t`, `g`, `m` or `k` for that unit.
pub fn human_readable_number<'a>(size: u64, output_str: &'a str) -> (hr: Hr<'a>)
    ensures
        hr.size() == size,
        hr.mode() == output_str@,
{
    Hr(size, output_str)
}

/// The character of a decimal digit.
fn digit_char(digit: u64) -> (c: char)
    requires
        digit < 10,
    ensures
        c == ('0' as u32 + digit) as char,
{
    if digit == 0 {
        '0'
    } else if digit == 1 {
        '1'
    } else if digit == 2 {
        '2'
    } else if digit == 3 {
        '3'
    } else if digit == 4 {
        '4'
    } else if digit == 5 {
        '5'
    } else if digit == 6 {
        '6'
    } else if digit == 7 {
        '7'
    } else if digit == 8 {
        '8'
    } else {
        '9'
    }
}

/// Appends the decimal digits of `n` to `text`.
fn append_decimal(text: &mut String, n: u64)
    ensures
        final(text)@ == old(text)@ + decimal_text(n as nat),
    decreases n,
{
    if n < 10 {
        text.push(digit_char(n));
        assert(text@ =~= old(text)@ + decimal_text(n as nat));
    } else {
        append_decimal(text, n / 10);
        text.push(digit_char(n % 10));
        assert(text@ =~= old(text)@ + decimal_text(n as nat));
    }
}

/// Writes a number in decimal digits.
pub fn decimal(n: u64) -> (text: String)
    ensures
        text@ == decimal_text(n as nat),
{
    let mut text = String::new();
    append_decimal(&mut text, n);
    assert(text@ =~= decimal_text(n as nat));
    text
}

impl HrForm {
    /// What the form reads where it is a whole number: the digits and the
    /// unit letter. A form with a decimal place is left to a caller that can
    /// divide in floating point.
    pub fn text(&self) -> (text: Option<String>)
        ensures
            match text {
                Some(t) => whole_text(*self) == Some(t@),
                None => whole_text(*self) is None,
            },
    {
        match self {
            HrForm::Whole { value, unit } => {
                let mut text = decimal(*value);
                text.push(*unit);
                Some(text)
            },
            HrForm::Tenths { .. } => None,
        }
    }
}

} // verus!
