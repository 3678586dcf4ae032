//! Character-level helpers shared by the parsers and formatters.

use vstd::prelude::*;

verus! {

/// Relies on `String::push`: the character is appended at the end.
#[verifier::external_body]
fn push_char(s: &mut String, c: char)
    ensures
        final(s)@ == old(s)@.push(c),
{
    s.push(c)
}

/// The characters of `s`, in order.
pub fn chars_of(s: &str) -> (r: Vec<char>)
    ensures
        r@ == s@,
{
    let mut r: Vec<char> = Vec::new();
    for c in it: s.chars()
        invariant
            it.seq() == s@,
            r@ == it.seq().take(it.index() as int),
    {
        r.push(c);
    }
    r
}

/// Whether `a` and `b` hold the same characters.
pub fn same_text(a: &str, b: &str) -> (r: bool)
    ensures
        r == (a@ == b@),
{
    let x = chars_of(a);
    let y = chars_of(b);
    if x.len() != y.len() {
        return false;
    }
    let mut i: usize = 0;
    while i < x.len()
        invariant
            x@ == a@,
            y@ == b@,
            x@.len() == y@.len(),
            i <= x@.len(),
            forall|k: int| 0 <= k < i ==> x@[k] == y@[k],
        decreases x@.len() - i,
    {
        if x[i] != y[i] {
            return false;
        }
        i = i + 1;
    }
    assert(x@ == y@);
    true
}

/// The characters of `cs` from index `from` on.
pub fn chars_from(cs: &Vec<char>, from: usize) -> (r: Vec<char>)
    requires
        from <= cs@.len(),
    ensures
        r@ == cs@.skip(from as int),
{
    let mut r: Vec<char> = Vec::new();
    let mut i: usize = from;
    while i < cs.len()
        invariant
            from <= i <= cs@.len(),
            r@ == cs@.subrange(from as int, i as int),
        decreases cs@.len() - i,
    {
        r.push(cs[i]);
        assert(cs@.subrange(from as int, i + 1) == cs@.subrange(from as int, i as int).push(cs@[i as int]));
        i = i + 1;
    }
    assert(cs@.subrange(from as int, cs@.len() as int) == cs@.skip(from as int));
    r
}

/// The string made of the characters `cs`, in order.
pub fn string_of(cs: &[char]) -> (r: String)
    ensures
        r@ == cs@,
{
    let mut r = String::new();
    let mut i: usize = 0;
    while i < cs.len()
        invariant
            i <= cs@.len(),
            r@ == cs@.take(i as int),
        decreases cs@.len() - i,
    {
        push_char(&mut r, cs[i]);
        assert(cs@.take(i as int).push(cs@[i as int]) == cs@.take(i + 1));
        i = i + 1;
    }
    assert(cs@.take(cs@.len() as int) == cs@);
    r
}


/// The character of a decimal or hexadecimal digit `d` (lower case).
pub open spec fn digit_char(d: nat) -> char {
    if d == 0 { '0' } else if d == 1 { '1' } else if d == 2 { '2' } else if d == 3 { '3' }
    else if d == 4 { '4' } else if d == 5 { '5' } else if d == 6 { '6' } else if d == 7 { '7' }
    else if d == 8 { '8' } else if d == 9 { '9' } else if d == 10 { 'a' } else if d == 11 { 'b' }
    else if d == 12 { 'c' } else if d == 13 { 'd' } else if d == 14 { 'e' } else { 'f' }
}

/// The value of the decimal digit `c`, if it is one.
pub open spec fn digit_value(c: char) -> Option<nat> {
    if '0' <= c && c <= '9' { Some((c as nat - '0' as nat) as nat) } else { None }
}

/// `n` written in decimal, without leading zeros ("0" for zero).
pub open spec fn decimal(n: nat) -> Seq<char>
    decreases n,
{
    if n < 10 {
        seq![digit_char(n)]
    } else {
        decimal(n / 10).push(digit_char(n % 10))
    }
}

/// The `n` lowest hexadecimal digits of `x`, most significant first.
pub open spec fn hex_digits(x: nat, n: nat) -> Seq<char>
    decreases n,
{
    if n == 0 {
        Seq::empty()
    } else {
        hex_digits(x / 16, (n - 1) as nat).push(digit_char(x % 16))
    }
}

fn decimal_digit(d: u64) -> (c: char)
    requires
        d < 10,
    ensures
        c == digit_char(d as nat),
{
    if d == 0 { '0' } else if d == 1 { '1' } else if d == 2 { '2' } else if d == 3 { '3' }
    else if d == 4 { '4' } else if d == 5 { '5' } else if d == 6 { '6' } else if d == 7 { '7' }
    else if d == 8 { '8' } else { '9' }
}

/// Appends `n`, written in decimal, to `out`.
pub fn push_decimal(out: &mut Vec<char>, n: u64)
    ensures
        final(out)@ == old(out)@ + decimal(n as nat),
    decreases n,
{
    if n >= 10 {
        push_decimal(out, n / 10);
    }
    out.push(decimal_digit(n % 10));
    proof {
        if n < 10 {
            assert(old(out)@ + decimal(n as nat) == old(out)@.push(digit_char(n as nat)));
        } else {
            assert(old(out)@ + decimal(n as nat)
                == (old(out)@ + decimal((n / 10) as nat)).push(digit_char((n % 10) as nat)));
        }
    }
}

} // verus!
