//! Text building blocks: decimal rendering of integers, zero padding, appending.

use vstd::prelude::*;

verus! {

/// `String::push` appends one character to the end of the string.
pub assume_specification[ String::push ](s: &mut String, ch: char)
    ensures
        final(s)@ == old(s)@.push(ch),
;

/// The ASCII digit character for `d` (0..=9).
pub open spec fn digit_char(d: nat) -> char {
    if d == 0 { '0' }
    else if d == 1 { '1' }
    else if d == 2 { '2' }
    else if d == 3 { '3' }
    else if d == 4 { '4' }
    else if d == 5 { '5' }
    else if d == 6 { '6' }
    else if d == 7 { '7' }
    else if d == 8 { '8' }
    else { '9' }
}

/// Shortest decimal rendering of `n` (no sign, no leading zeros; "0" for zero).
pub open spec fn decimal(n: nat) -> Seq<char>
    decreases n,
{
    if n < 10 {
        seq![digit_char(n)]
    } else {
        decimal(n / 10).push(digit_char(n % 10))
    }
}

/// `count` copies of the character `c`.
pub open spec fn repeat_char(c: char, count: nat) -> Seq<char>
    decreases count,
{
    if count == 0 {
        Seq::empty()
    } else {
        repeat_char(c, (count - 1) as nat).push(c)
    }
}

/// Decimal rendering of `n` left-padded with '0' to at least `width` characters
/// (the `{:0width$}` format of an unsigned integer).
pub open spec fn zero_padded(n: nat, width: nat) -> Seq<char> {
    let d = decimal(n);
    if d.len() >= width {
        d
    } else {
        repeat_char('0', (width - d.len()) as nat) + d
    }
}

fn digit_to_char(d: u64) -> (c: char)
    requires
        d < 10,
    ensures
        c == digit_char(d as nat),
{
    if d == 0 { '0' }
    else if d == 1 { '1' }
    else if d == 2 { '2' }
    else if d == 3 { '3' }
    else if d == 4 { '4' }
    else if d == 5 { '5' }
    else if d == 6 { '6' }
    else if d == 7 { '7' }
    else if d == 8 { '8' }
    else { '9' }
}

proof fn lemma_decimal_len_pos(n: nat)
    ensures
        decimal(n).len() >= 1,
    decreases n,
{
    if n >= 10 {
        lemma_decimal_len_pos(n / 10);
    }
}

/// Appends the decimal rendering of `n` to `out`.
pub fn push_decimal(out: &mut String, n: u64)
    ensures
        final(out)@ == old(out)@ + decimal(n as nat),
    decreases n,
{
    if n < 10 {
        out.push(digit_to_char(n));
        assert(decimal(n as nat) =~= seq![digit_char(n as nat)]);
    } else {
        push_decimal(out, n / 10);
        out.push(digit_to_char(n % 10));
        assert(decimal(n as nat) == decimal((n / 10) as nat).push(digit_char((n % 10) as nat)));
    }
}

/// Number of decimal digits of `n`.
pub fn decimal_len(n: u64) -> (r: usize)
    ensures
        r == decimal(n as nat).len(),
    decreases n,
{
    if n < 10 {
        1
    } else {
        let k = decimal_len(n / 10);
        proof { lemma_decimal_len_bound((n / 10) as nat); }
        k + 1
    }
}

/// Ten to the power `k`.
pub open spec fn pow10(k: nat) -> nat
    decreases k,
{
    if k == 0 { 1 } else { 10 * pow10((k - 1) as nat) }
}

proof fn lemma_decimal_len_le(n: nat, k: nat)
    requires
        n < pow10(k),
        k >= 1,
    ensures
        decimal(n).len() <= k,
    decreases k,
{
    if n >= 10 {
        assert(k >= 2) by {
            if k == 1 { assert(pow10(1) == 10) by { reveal_with_fuel(pow10, 2); } }
        }
        assert(n / 10 < pow10((k - 1) as nat));
        lemma_decimal_len_le(n / 10, (k - 1) as nat);
    }
}

proof fn lemma_decimal_len_bound(n: nat)
    requires
        n < 0x1_0000_0000_0000_0000,
    ensures
        decimal(n).len() <= 20,
{
    assert(pow10(20) == 100000000000000000000nat) by { reveal_with_fuel(pow10, 21); }
    lemma_decimal_len_le(n, 20);
}

/// Appends `n` left-padded with zeros to at least `width` characters.
pub fn push_zero_padded(out: &mut String, n: u64, width: usize)
    ensures
        final(out)@ == old(out)@ + zero_padded(n as nat, width as nat),
{
    let len = decimal_len(n);
    if len < width {
        let pad = width - len;
        let mut i: usize = 0;
        let ghost start = out@;
        while i < pad
            invariant
                i <= pad,
                out@ == start + repeat_char('0', i as nat),
            decreases pad - i,
        {
            out.push('0');
            i = i + 1;
            assert(repeat_char('0', i as nat) == repeat_char('0', (i - 1) as nat).push('0'));
            assert(out@ =~= start + repeat_char('0', i as nat));
        }
        let ghost mid = out@;
        push_decimal(out, n);
        assert(out@ =~= start + (repeat_char('0', pad as nat) + decimal(n as nat)));
    } else {
        push_decimal(out, n);
    }
}

/// Appends every character of `s` to `out`.
pub fn push_str(out: &mut String, s: &str)
    ensures
        final(out)@ == old(out)@ + s@,
{
    out.append(s);
}

} // verus!
