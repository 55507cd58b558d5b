use vstd::prelude::*;

use crate::text::from_chars;

verus! {

/// The decimal digit character for `d` (below ten).
pub open spec fn digit_char(d: nat) -> char {
    ((48 + d) as u8) as char
}

/// The decimal representation of `n`, most significant digit first, with no
/// leading zeros (zero itself is `"0"`).
pub open spec fn decimal(n: nat) -> Seq<char>
    decreases n,
{
    if n < 10 {
        seq![digit_char(n)]
    } else {
        decimal(n / 10).push(digit_char(n % 10))
    }
}

/// `k` space characters.
pub open spec fn spaces(k: nat) -> Seq<char> {
    Seq::new(k, |i: int| ' ')
}

/// How many characters `s` falls short of `len`.
pub open spec fn shortfall(s: Seq<char>, len: nat) -> nat {
    if s.len() < len {
        (len - s.len()) as nat
    } else {
        0
    }
}

/// `n` in decimal, preceded by spaces up to a width of `len`.
pub open spec fn left_padded(n: nat, len: nat) -> Seq<char> {
    spaces(shortfall(decimal(n), len)) + decimal(n)
}

/// `n` in decimal, followed by spaces up to a width of `len`.
pub open spec fn right_padded(n: nat, len: nat) -> Seq<char> {
    decimal(n) + spaces(shortfall(decimal(n), len))
}

/// The decimal digits of `n`.
fn digits(n: u32) -> (r: Vec<char>)
    ensures
        r@ == decimal(n as nat),
{
    let mut v: Vec<char> = Vec::new();
    v.push(((48 + n % 10) as u8) as char);
    let mut m: u32 = n / 10;
    while m > 0
        invariant
            m == 0 ==> decimal(n as nat) == v@,
            m > 0 ==> decimal(n as nat) == decimal(m as nat) + v@,
        decreases m,
    {
        let d: char = ((48 + m % 10) as u8) as char;
        let ghost old_v = v@;
        v.insert(0, d);
        assert(decimal(m as nat) + old_v =~= decimal((m / 10) as nat) + v@ || m < 10);
        m = m / 10;
    }
    v
}

/// `num` in decimal, right-aligned in a field of `len` characters.
pub fn left_pad(num: u32, len: usize) -> (r: String)
    ensures
        r@ == left_padded(num as nat, len as nat),
{
    let s = digits(num);
    let mut p: Vec<char> = Vec::new();
    while s.len() + p.len() < len
        invariant
            p@ == spaces(p.len() as nat),
            p.len() <= shortfall(s@, len as nat),
        decreases len - p.len(),
    {
        p.push(' ');
    }
    let ghost pad = p@;
    let mut i: usize = 0;
    while i < s.len()
        invariant
            i <= s.len(),
            p@ == pad + s@.take(i as int),
        decreases s.len() - i,
    {
        p.push(s[i]);
        i = i + 1;
    }
    assert(pad =~= spaces(shortfall(s@, len as nat)));
    assert(s@.take(s.len() as int) =~= s@);
    from_chars(&p)
}

/// `num` in decimal, left-aligned in a field of `len` characters.
pub fn right_pad(num: u32, len: usize) -> (r: String)
    ensures
        r@ == right_padded(num as nat, len as nat),
{
    let mut s = digits(num);
    let ghost d = s@;
    while s.len() < len
        invariant
            d.len() <= s.len(),
            s@ == d + spaces((s.len() - d.len()) as nat),
            s.len() <= d.len() + shortfall(d, len as nat),
        decreases len - s.len(),
    {
        s.push(' ');
        assert(s@ =~= d + spaces((s.len() - d.len()) as nat));
    }
    assert(s@ =~= right_padded(num as nat, len as nat));
    from_chars(&s)
}

} // verus!
