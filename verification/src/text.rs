use vstd::prelude::*;

verus! {

// ---------------------------------------------------------------------------
// Character classes
// ---------------------------------------------------------------------------

/// `A`..`Z` or `a`..`z`.
pub open spec fn ascii_alpha(c: char) -> bool {
    ('A' <= c && c <= 'Z') || ('a' <= c && c <= 'z')
}

/// `0`..`9`.
pub open spec fn ascii_digit(c: char) -> bool {
    '0' <= c && c <= '9'
}

/// A character that may continue an identifier: an ASCII letter or digit,
/// `_` or `.`.
pub open spec fn word_char(c: char) -> bool {
    ascii_alpha(c) || ascii_digit(c) || c == '_' || c == '.'
}

/// A character that may start a sheet name or a defined name.
pub open spec fn name_start_char(c: char) -> bool {
    ascii_alpha(c) || c == '_'
}

pub fn is_ascii_alpha(c: char) -> (b: bool)
    ensures
        b == ascii_alpha(c),
{
    ('A' <= c && c <= 'Z') || ('a' <= c && c <= 'z')
}

pub fn is_ascii_digit(c: char) -> (b: bool)
    ensures
        b == ascii_digit(c),
{
    '0' <= c && c <= '9'
}

pub fn is_word_char(c: char) -> (b: bool)
    ensures
        b == word_char(c),
{
    is_ascii_alpha(c) || is_ascii_digit(c) || c == '_' || c == '.'
}

/// The numeric value of a digit character.
pub open spec fn digit_value(c: char) -> nat {
    (c as int - '0' as int) as nat
}

/// The character of a digit value below ten.
pub open spec fn digit_char(d: nat) -> char {
    ('0' as int + d) as char
}

/// The position of a letter in the alphabet, counting from 1, without
/// regard to case.
pub open spec fn letter_value(c: char) -> nat {
    if 'a' <= c && c <= 'z' {
        (c as int - 'a' as int + 1) as nat
    } else {
        (c as int - 'A' as int + 1) as nat
    }
}

/// The upper-case letter at position `r` (from 0) of the alphabet.
pub open spec fn letter_char(r: nat) -> char {
    ('A' as int + r) as char
}

/// The ASCII upper-case form of a character; other characters unchanged.
pub open spec fn upper(c: char) -> char {
    if 'a' <= c && c <= 'z' {
        (c as int - 32) as char
    } else {
        c
    }
}

// ---------------------------------------------------------------------------
// Decimal and UTF-8 arithmetic
// ---------------------------------------------------------------------------

/// The decimal digits of `n`, most significant first, without leading zeros
/// (a single `0` for zero).
pub open spec fn decimal(n: nat) -> Seq<char>
    decreases n,
{
    if n < 10 {
        seq![digit_char(n)]
    } else {
        decimal(n / 10).push(digit_char(n % 10))
    }
}

/// The value of a sequence of digit characters read in base ten.
pub open spec fn digits_value(s: Seq<char>) -> nat
    decreases s.len(),
{
    if s.len() == 0 {
        0
    } else {
        digits_value(s.drop_last()) * 10 + digit_value(s.last())
    }
}

/// The number of bytes of the UTF-8 encoding of `c`.
pub open spec fn utf8_len(c: char) -> nat {
    if (c as int) < 0x80 {
        1
    } else if (c as int) < 0x800 {
        2
    } else if (c as int) < 0x10000 {
        3
    } else {
        4
    }
}

/// The number of bytes of the UTF-8 encoding of `s`.
pub open spec fn utf8_size(s: Seq<char>) -> nat
    decreases s.len(),
{
    if s.len() == 0 {
        0
    } else {
        utf8_size(s.drop_last()) + utf8_len(s.last())
    }
}

// ---------------------------------------------------------------------------
// String building
// ---------------------------------------------------------------------------

/// `String::push`: appends one character to the end of a string.
#[verifier::external_body]
pub(crate) fn push_char(s: &mut String, c: char)
    ensures
        final(s)@ == old(s)@.push(c),
{
    s.push(c);
}

/// The characters of `s`, in order.
pub fn chars_of(s: &str) -> (v: Vec<char>)
    ensures
        v@ == s@,
{
    let mut v: Vec<char> = Vec::new();
    for c in it: s.chars()
        invariant
            v@ == it.seq().take(it.index() as int),
            it.seq() == s@,
    {
        v.push(c);
    }
    v
}

/// Appends `v[from..to]` to `out`.
pub fn push_chars(out: &mut String, v: &Vec<char>, from: usize, to: usize)
    requires
        from <= to <= v@.len(),
    ensures
        final(out)@ == old(out)@ + v@.subrange(from as int, to as int),
{
    let ghost start = out@;
    let mut k = from;
    while k < to
        invariant
            from <= k <= to <= v@.len(),
            out@ == start + v@.subrange(from as int, k as int),
        decreases to - k,
    {
        push_char(out, v[k]);
        k = k + 1;
        assert(v@.subrange(from as int, k as int) =~= v@.subrange(from as int, k - 1).push(
            v@[k - 1],
        ));
    }
}

/// A new string holding `v[from..to]`.
pub fn string_of(v: &Vec<char>, from: usize, to: usize) -> (s: String)
    requires
        from <= to <= v@.len(),
    ensures
        s@ == v@.subrange(from as int, to as int),
{
    let mut s = String::new();
    push_chars(&mut s, v, from, to);
    assert(s@ =~= v@.subrange(from as int, to as int));
    s
}

/// The decimal digit character of `d`.
pub fn digit_to_char(d: u64) -> (c: char)
    requires
        d < 10,
    ensures
        c == digit_char(d as nat),
{
    let b: u8 = 48u8 + d as u8;
    b as char
}

/// Appends the decimal representation of `n` to `out`.
pub fn push_decimal(out: &mut String, n: u64)
    ensures
        final(out)@ == old(out)@ + decimal(n as nat),
{
    let mut digits: Vec<char> = Vec::new();
    let mut m: u64 = n;
    while m >= 10
        invariant
            decimal(n as nat) == decimal(m as nat) + digits@.reverse(),
        decreases m,
    {
        let d = digit_to_char(m % 10);
        let ghost old_digits = digits@;
        digits.push(d);
        assert(digits@.reverse() =~= seq![d] + old_digits.reverse());
        assert(decimal(m as nat) == decimal((m / 10) as nat).push(d));
        assert(decimal(m as nat) + old_digits.reverse() =~= decimal((m / 10) as nat) + (seq![d]
            + old_digits.reverse()));
        m = m / 10;
    }
    let ghost start = out@;
    push_char(out, digit_to_char(m));
    let mut k = digits.len();
    while k > 0
        invariant
            k <= digits@.len(),
            out@ == start + seq![digit_char(m as nat)] + digits@.reverse().subrange(
                0,
                digits@.len() - k,
            ),
        decreases k,
    {
        k = k - 1;
        push_char(out, digits[k]);
        assert(digits@.reverse().subrange(0, digits@.len() - k) =~= digits@.reverse().subrange(
            0,
            digits@.len() - k - 1,
        ).push(digits@[k as int]));
    }
    assert(digits@.reverse().subrange(0, digits@.len() as int) =~= digits@.reverse());
    assert(decimal(m as nat) =~= seq![digit_char(m as nat)]);
    assert(out@ =~= start + decimal(n as nat));
}

/// Whether `a` and `b` hold the same characters.
pub fn chars_eq(a: &str, b: &str) -> (r: bool)
    ensures
        r == (a@ == b@),
{
    let va = chars_of(a);
    let vb = chars_of(b);
    if va.len() != vb.len() {
        return false;
    }
    let mut k: usize = 0;
    while k < va.len()
        invariant
            va@ == a@,
            vb@ == b@,
            va@.len() == vb@.len(),
            k <= va@.len(),
            forall|j: int| 0 <= j < k ==> va@[j] == vb@[j],
        decreases va@.len() - k,
    {
        if va[k] != vb[k] {
            assert(va@[k as int] != vb@[k as int]);
            return false;
        }
        k = k + 1;
    }
    assert(va@ =~= vb@);
    true
}

/// The number of bytes of the UTF-8 encoding of `c`.
pub fn char_utf8_len(c: char) -> (n: usize)
    ensures
        n == utf8_len(c),
{
    if (c as u32) < 0x80 {
        1
    } else if (c as u32) < 0x800 {
        2
    } else if (c as u32) < 0x10000 {
        3
    } else {
        4
    }
}

} // verus!
