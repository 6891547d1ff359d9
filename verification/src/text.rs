//! Text helpers shared by the modules: building strings and the digits
//! used in identifiers and timestamps.

use vstd::prelude::*;

verus! {

/// `String::push` appends one character to the end of the string.
pub assume_specification[ String::push ](s: &mut String, ch: char)
    ensures
        final(s)@ == old(s)@.push(ch),
;

/// `String::push_str` appends the characters of the slice to the string.
pub assume_specification[ String::push_str ](s: &mut String, string: &str)
    ensures
        final(s)@ == old(s)@ + string@,
;

/// The lowercase hexadecimal digit for `n` (`n < 16`).
pub open spec fn hex_digit(n: int) -> char {
    if n < 10 {
        (48 + n) as char
    } else {
        (87 + n) as char
    }
}

/// The decimal digit for `n` (`n < 10`).
pub open spec fn dec_digit(n: int) -> char {
    (48 + n) as char
}

/// The lowercase hexadecimal digit for a value below 16.
pub fn hex_digit_char(n: u8) -> (c: char)
    requires
        n < 16,
    ensures
        c == hex_digit(n as int),
{
    if n < 10 {
        (48u8 + n) as char
    } else {
        (87u8 + n) as char
    }
}

/// The decimal digit for a value below 10.
pub fn dec_digit_char(n: u8) -> (c: char)
    requires
        n < 10,
    ensures
        c == dec_digit(n as int),
{
    (48u8 + n) as char
}

/// Whether a character is an ASCII hexadecimal digit.
pub open spec fn is_hex(c: char) -> bool {
    (48 <= c as u32 <= 57) || (97 <= c as u32 <= 102) || (65 <= c as u32 <= 70)
}

/// The value of an ASCII hexadecimal digit.
pub open spec fn hex_value(c: char) -> int {
    if 48 <= c as u32 <= 57 {
        c as u32 - 48
    } else if 97 <= c as u32 <= 102 {
        c as u32 - 87
    } else {
        c as u32 - 55
    }
}

/// Whether a character is an ASCII decimal digit.
pub open spec fn is_dec(c: char) -> bool {
    48 <= c as u32 <= 57
}


/// The decimal text of a natural number, without leading zeros.
pub open spec fn dec_text(n: nat) -> Seq<char>
    decreases n,
{
    if n < 10 {
        seq![dec_digit(n as int)]
    } else {
        dec_text(n / 10).push(dec_digit((n % 10) as int))
    }
}

/// The decimal text of `n` padded with leading zeros to at least `width`.
pub open spec fn dec_text_padded(n: nat, width: nat) -> Seq<char> {
    let pad: nat = if width > dec_text(n).len() { (width - dec_text(n).len()) as nat } else { 0 };
    Seq::new(pad, |i: int| '0') + dec_text(n)
}

/// The last `k` lowercase hexadecimal digits of `n`, most significant first.
pub open spec fn hex_text(n: nat, k: nat) -> Seq<char>
    decreases k,
{
    if k == 0 {
        Seq::empty()
    } else {
        hex_text(n / 16, (k - 1) as nat).push(hex_digit((n % 16) as int))
    }
}

/// Append the decimal text of `n`.
pub fn push_decimal(s: &mut String, n: u64)
    ensures
        final(s)@ == old(s)@ + dec_text(n as nat),
    decreases n,
{
    if n >= 10 {
        push_decimal(s, n / 10);
    }
    s.push(dec_digit_char((n % 10) as u8));
    assert(final(s)@ =~= old(s)@ + dec_text(n as nat));
}

/// Append the decimal text of `n`, zero-padded to at least `width` digits.
pub fn push_decimal_padded(s: &mut String, n: u64, width: usize)
    ensures
        final(s)@ == old(s)@ + dec_text_padded(n as nat, width as nat),
{
    let mut digits = String::new();
    push_decimal(&mut digits, n);
    let len = dec_len(n);
    let mut i: usize = len;
    let ghost start = s@;
    while i < width
        invariant
            len == dec_text(n as nat).len(),
            len <= i,
            i <= width || len > width,
            len > width ==> i == len,
            s@ == start + Seq::new((i - len) as nat, |j: int| '0'),
        decreases width - i,
    {
        s.push('0');
        assert(start + Seq::new((i + 1 - len) as nat, |j: int| '0') =~= (start + Seq::new(
            (i - len) as nat,
            |j: int| '0',
        )).push('0'));
        i += 1;
    }
    let ghost zeros = Seq::new((i - len) as nat, |j: int| '0');
    s.push_str(digits.as_str());
    proof {
        let pad: nat = if width > len { (width - len) as nat } else { 0 };
        assert(pad == i - len);
        assert(zeros =~= Seq::new(pad, |j: int| '0'));
        assert(s@ =~= start + zeros + dec_text(n as nat));
    }
}

/// The number of decimal digits of `n`.
pub fn dec_len(n: u64) -> (r: usize)
    ensures
        r == dec_text(n as nat).len(),
        1 <= r <= 20,
    decreases n,
{
    proof {
        reveal_with_fuel(pow10, 21);
        assert(pow10(20) == 100000000000000000000nat);
        lemma_dec_text_len(n as nat, 20);
    }
    if n < 10 {
        1
    } else {
        dec_len(n / 10) + 1
    }
}

/// Ten to the power `k`.
pub open spec fn pow10(k: nat) -> nat
    decreases k,
{
    if k == 0 {
        1
    } else {
        10 * pow10((k - 1) as nat)
    }
}

/// A number below `10^k` has at most `k` decimal digits.
pub proof fn lemma_dec_text_len(n: nat, k: nat)
    requires
        k >= 1,
        n < pow10(k),
    ensures
        1 <= dec_text(n).len() <= k,
    decreases n,
{
    if n >= 10 {
        assert(n / 10 < pow10((k - 1) as nat));
        lemma_dec_text_len(n / 10, (k - 1) as nat);
    }
}

/// Append the last `k` lowercase hexadecimal digits of `n`.
pub fn push_hex(s: &mut String, n: u64, k: usize)
    ensures
        final(s)@ == old(s)@ + hex_text(n as nat, k as nat),
    decreases k,
{
    if k > 0 {
        push_hex(s, n / 16, k - 1);
        s.push(hex_digit_char((n % 16) as u8));
        assert(final(s)@ =~= old(s)@ + hex_text(n as nat, k as nat));
    }
}

} // verus!
