//! Text helpers: character access to strings and decimal rendering of numbers.

use vstd::prelude::*;

verus! {

/// Appends one character to a string (`String::push`).
///
/// Claims of `String::push` only that the view of the string grows by that
/// character at its end.
#[verifier::external_body]
pub(crate) fn push_char(s: &mut String, c: char)
    ensures
        final(s)@ == old(s)@.push(c),
{
    s.push(c);
}

/// The characters of a string slice, in order.
pub fn chars_of(s: &str) -> (out: Vec<char>)
    ensures
        out@ == s@,
{
    let mut out: Vec<char> = Vec::new();
    for c in it: s.chars()
        invariant
            out@ == it.seq().take(it.index()),
    {
        out.push(c);
    }
    out
}

/// The ASCII digit character for a value below ten.
pub open spec fn digit_char(d: nat) -> char {
    ('0' as nat + d) as char
}

/// The decimal rendering of a natural number: no sign, no leading zeros.
pub open spec fn dec(n: nat) -> Seq<char>
    decreases n,
{
    if n < 10 {
        seq![digit_char(n)]
    } else {
        dec(n / 10).push(digit_char(n % 10))
    }
}

/// The digit character for `d`, `d < 10`.
pub fn digit_to_char(d: u32) -> (c: char)
    requires
        d < 10,
    ensures
        c == digit_char(d as nat),
{
    if d == 0 { '0' }
    else if d == 1 { '1' }
    else if d == 2 { '2' }
    else if d == 3 { '3' }
    else if d == 4 { '4' }
    else if d == 5 { '5' }
    else if d == 6 { '6' }
    else if d == 7 { '7' }
    else if d == 8 { '8' }
    else { '9' }
}

/// The upper-case hexadecimal digit character for a value below sixteen.
pub open spec fn hex_digit_char(d: nat) -> char {
    if d < 10 {
        digit_char(d)
    } else {
        ('A' as nat + (d - 10)) as char
    }
}

/// The last `n` hexadecimal digits of `v`, upper case, zero-padded.
pub open spec fn hex_fixed(v: nat, n: nat) -> Seq<char>
    decreases n,
{
    if n == 0 {
        Seq::<char>::empty()
    } else {
        hex_fixed(v / 16, (n - 1) as nat).push(hex_digit_char(v % 16))
    }
}

fn hex_digit_to_char(d: u32) -> (c: char)
    requires
        d < 16,
    ensures
        c == hex_digit_char(d as nat),
{
    if d < 10 {
        digit_to_char(d)
    } else if d == 10 { 'A' }
    else if d == 11 { 'B' }
    else if d == 12 { 'C' }
    else if d == 13 { 'D' }
    else if d == 14 { 'E' }
    else { 'F' }
}

/// Appends the last `n` upper-case hexadecimal digits of `v`, zero-padded.
pub fn push_hex_fixed(s: &mut String, v: u32, n: u32)
    ensures
        final(s)@ == old(s)@ + hex_fixed(v as nat, n as nat),
    decreases n,
{
    if n > 0 {
        push_hex_fixed(s, v / 16, n - 1);
        push_char(s, hex_digit_to_char(v % 16));
    }
}

/// Appends the decimal rendering of `n` to `s`.
pub fn push_decimal(s: &mut String, n: u64)
    ensures
        final(s)@ == old(s)@ + dec(n as nat),
    decreases n,
{
    if n < 10 {
        push_char(s, digit_to_char(n as u32));
        assert(dec(n as nat) =~= seq![digit_char(n as nat)]);
    } else {
        push_decimal(s, n / 10);
        push_char(s, digit_to_char((n % 10) as u32));
    }
}

/// An ASCII decimal digit.
pub open spec fn is_digit(c: char) -> bool {
    '0' <= c && c <= '9'
}

/// Every character is an ASCII decimal digit.
pub open spec fn all_digits(d: Seq<char>) -> bool {
    forall|i: int| 0 <= i < d.len() ==> #[trigger] is_digit(d[i])
}

/// The value of a string of decimal digits (most significant first).
pub open spec fn digits_value(d: Seq<char>) -> nat
    decreases d.len(),
{
    if d.len() == 0 {
        0
    } else {
        digits_value(d.drop_last()) * 10 + (d.last() as nat - '0' as nat) as nat
    }
}

/// A prefix of a digit string is worth no more than the whole.
pub proof fn lemma_digits_value_prefix_le(d: Seq<char>, j: int)
    requires
        0 <= j <= d.len(),
        all_digits(d.take(j)),
    ensures
        all_digits(d) ==> digits_value(d.take(j)) <= digits_value(d),
    decreases d.len() - j,
{
    if j < d.len() && all_digits(d) {
        assert(d.take(j + 1).drop_last() =~= d.take(j));
        assert(is_digit(d[j]));
        lemma_digits_value_prefix_le(d, j + 1);
    } else if j == d.len() {
        assert(d.take(j) =~= d);
    }
}

/// Facts about the decimal rendering of `n`: non-empty, digits only, no
/// leading zero, and worth `n`.
pub proof fn lemma_dec_facts(n: nat)
    ensures
        dec(n).len() > 0,
        all_digits(dec(n)),
        dec(n).len() > 1 ==> n >= 10,
        n > 0 ==> dec(n)[0] != '0',
        digits_value(dec(n)) == n,
    decreases n,
{
    if n < 10 {
        let c = digit_char(n);
        assert(dec(n) =~= seq![c]);
        assert(dec(n).drop_last() =~= Seq::<char>::empty());
        assert(digits_value(Seq::<char>::empty()) == 0);
        assert(c as nat == '0' as nat + n);
        assert(is_digit(dec(n)[0]));
    } else {
        lemma_dec_facts(n / 10);
        let d = dec(n / 10);
        let c = digit_char(n % 10);
        assert(dec(n) == d.push(c));
        assert(dec(n).drop_last() =~= d);
        assert forall|i: int| 0 <= i < dec(n).len() implies #[trigger] is_digit(dec(n)[i]) by {
            if i < d.len() {
                assert(dec(n)[i] == d[i]);
            }
        }
        assert(dec(n)[0] == d[0]);
        if n / 10 < 10 {
            assert(d =~= seq![digit_char(n / 10)]);
        }
        vstd::arithmetic::div_mod::lemma_fundamental_div_mod(n as int, 10);
    }
}

/// A digit string is worth at least one when its first digit is not `'0'`.
pub proof fn lemma_digits_value_pos(q: Seq<char>)
    requires
        q.len() > 0,
        all_digits(q),
        q[0] != '0',
    ensures
        digits_value(q) >= 1,
{
    assert(q.take(1).drop_last() =~= Seq::<char>::empty());
    assert(all_digits(q.take(1))) by {
        assert(q.take(1)[0] == q[0]);
    }
    assert(is_digit(q[0]));
    lemma_digits_value_prefix_le(q, 1);
}

/// A digit string without a leading zero is the decimal rendering of its value.
pub proof fn lemma_dec_of_digits(p: Seq<char>)
    requires
        p.len() > 0,
        all_digits(p),
        p.len() > 1 ==> p[0] != '0',
    ensures
        dec(digits_value(p)) == p,
    decreases p.len(),
{
    let v = digits_value(p);
    assert(is_digit(p.last()));
    let dd = (p.last() as nat - '0' as nat) as nat;
    if p.len() == 1 {
        assert(p.drop_last() =~= Seq::<char>::empty());
        assert(digits_value(Seq::<char>::empty()) == 0);
        assert(v == dd);
        assert(dec(v) =~= seq![digit_char(v)]);
        assert(digit_char(v) == p[0]);
        assert(dec(v) =~= p);
    } else {
        let q = p.drop_last();
        assert(q[0] == p[0]);
        assert(all_digits(q)) by {
            assert forall|i: int| 0 <= i < q.len() implies #[trigger] is_digit(q[i]) by {
                assert(q[i] == p[i]);
            }
        }
        lemma_dec_of_digits(q);
        lemma_digits_value_pos(q);
        let w = digits_value(q);
        assert(v == w * 10 + dd);
        assert(v / 10 == w && v % 10 == dd) by (nonlinear_arith)
            requires
                v == w * 10 + dd,
                dd < 10,
        ;
        assert(digit_char(dd) == p.last());
        assert(dec(v) == dec(w).push(digit_char(dd)));
        assert(dec(v) =~= p);
    }
}

} // verus!
