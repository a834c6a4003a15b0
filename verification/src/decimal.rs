use vstd::prelude::*;
use crate::text::is_digit;

verus! {

/// The character that writes the digit `d`.
pub open spec fn digit_char(d: nat) -> char {
    ((48 + d) as u8) as char
}

/// The digit that `c` writes.
pub open spec fn digit_value(c: char) -> nat {
    (c as u8 - 48) as nat
}

/// `n` in decimal digits, without leading zeros.
pub open spec fn decimal(n: nat) -> Seq<char>
    decreases n,
{
    if n < 10 {
        seq![digit_char(n)]
    } else {
        decimal(n / 10).push(digit_char(n % 10))
    }
}

/// `s` is made of digits, at least one.
pub open spec fn is_decimal_text(s: Seq<char>) -> bool {
    s.len() > 0 && forall|i: int| 0 <= i < s.len() ==> is_digit(#[trigger] s[i])
}

/// The number that the digits `s` write.
pub open spec fn decimal_value(s: Seq<char>) -> nat
    decreases s.len(),
{
    if s.len() == 0 {
        0
    } else {
        decimal_value(s.drop_last()) * 10 + digit_value(s.last())
    }
}

/// Reading what `decimal` wrote gives the number back.
pub proof fn lemma_decimal_round_trip(n: nat)
    ensures
        is_decimal_text(decimal(n)),
        decimal_value(decimal(n)) == n,
    decreases n,
{
    if n < 10 {
        let s = decimal(n);
        assert(s.drop_last() =~= Seq::<char>::empty());
        assert(decimal_value(s.drop_last()) == 0);
    } else {
        lemma_decimal_round_trip(n / 10);
        let s = decimal(n);
        assert(s.drop_last() =~= decimal(n / 10));
    }
}

/// More digits never write a smaller number.
pub proof fn lemma_value_grows(s: Seq<char>, k: int)
    requires
        0 <= k <= s.len(),
    ensures
        decimal_value(s.take(k)) <= decimal_value(s),
    decreases s.len() - k,
{
    if k < s.len() {
        lemma_value_grows(s, k + 1);
        assert(s.take(k + 1).drop_last() == s.take(k));
    } else {
        assert(s.take(k) == s);
    }
}

/// Appends `n`, in decimal digits, to `out`.
pub fn push_decimal(out: &mut String, n: u128)
    ensures
        final(out)@ == old(out)@ + decimal(n as nat),
    decreases n,
{
    if n >= 10 {
        push_decimal(out, n / 10);
    }
    let d: u8 = (n % 10) as u8;
    out.push((48 + d) as char);
    proof {
        if n < 10 {
            assert(old(out)@.push(digit_char(n as nat)) =~= old(out)@ + decimal(n as nat));
        } else {
            assert((old(out)@ + decimal((n / 10) as nat)).push(digit_char((n % 10) as nat))
                =~= old(out)@ + decimal(n as nat));
        }
    }
}

/// `n` in decimal digits.
pub fn decimal_string(n: u128) -> (s: String)
    ensures
        s@ == decimal(n as nat),
{
    let mut s = String::new();
    push_decimal(&mut s, n);
    s
}

/// The number that `chars` writes in decimal digits, if it writes one that
/// fits.
pub fn parse_decimal(chars: &Vec<char>) -> (r: Option<u128>)
    ensures
        r is Some <==> is_decimal_text(chars@) && decimal_value(chars@) <= u128::MAX,
        r is Some ==> r.unwrap() == decimal_value(chars@),
{
    if chars.len() == 0 {
        return None;
    }
    let mut value: u128 = 0;
    let mut i: usize = 0;
    while i < chars.len()
        invariant
            i <= chars.len(),
            forall|j: int| 0 <= j < i ==> is_digit(#[trigger] chars@[j]),
            value == decimal_value(chars@.take(i as int)),
        decreases chars.len() - i,
    {
        let c = chars[i];
        if !('0' <= c && c <= '9') {
            return None;
        }
        let d: u128 = (c as u8 - 48) as u128;
        proof {
            assert(chars@.take(i + 1).drop_last() == chars@.take(i as int));
            lemma_value_grows(chars@, i + 1);
        }
        if value > (u128::MAX - d) / 10 {
            return None;
        }
        value = value * 10 + d;
        i += 1;
    }
    proof {
        assert(chars@.take(i as int) == chars@);
    }
    Some(value)
}

} // verus!
