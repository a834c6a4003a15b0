use vstd::prelude::*;
use vstd::string::StringExecFns;
use crate::decimal::{decimal_value, is_decimal_text, parse_decimal};
use crate::serial::{DataBits, FlowControl, Parity, StopBits};
use crate::text::chars_of;

verus! {

/// The number below 256 that `s` writes: decimal digits, with or without
/// a plus sign before them.
pub open spec fn byte_of(s: Seq<char>) -> Option<u8> {
    let digits = if s.len() > 0 && s[0] == '+' {
        s.drop_first()
    } else {
        s
    };
    if is_decimal_text(digits) && decimal_value(digits) <= u8::MAX {
        Some(decimal_value(digits) as u8)
    } else {
        None
    }
}

fn parse_byte(s: &str) -> (r: Option<u8>)
    ensures
        r == byte_of(s@),
{
    let chars = chars_of(s);
    let digits = if chars.len() > 0 && chars[0] == '+' {
        let mut rest: Vec<char> = Vec::new();
        let mut i: usize = 1;
        while i < chars.len()
            invariant
                1 <= i <= chars.len(),
                rest@ == chars@.subrange(1, i as int),
            decreases chars.len() - i,
        {
            rest.push(chars[i]);
            i += 1;
        }
        proof {
            assert(chars@.subrange(1, i as int) =~= chars@.drop_first());
        }
        rest
    } else {
        chars
    };
    match parse_decimal(&digits) {
        Some(value) => if value <= 255 {
            Some(value as u8)
        } else {
            None
        },
        None => None,
    }
}

/// Whether `s` is the text `word`.
fn is_text(s: &str, word: &str) -> (same: bool)
    ensures
        same == (s@ == word@),
{
    let a = chars_of(s);
    let b = chars_of(word);
    if a.len() != b.len() {
        return false;
    }
    let mut i: usize = 0;
    while i < a.len()
        invariant
            i <= a.len() == b.len(),
            a@ == s@,
            b@ == word@,
            forall|j: int| 0 <= j < i ==> a@[j] == b@[j],
        decreases a.len() - i,
    {
        if a[i] != b[i] {
            proof {
                assert(s@[i as int] != word@[i as int]);
            }
            return false;
        }
        i += 1;
    }
    proof {
        assert(a@ =~= b@);
    }
    true
}

/// The number of data bits that a number stands for.
pub open spec fn data_bits_of(bits: u8) -> Option<DataBits> {
    if bits == 5 {
        Some(DataBits::Five)
    } else if bits == 6 {
        Some(DataBits::Six)
    } else if bits == 7 {
        Some(DataBits::Seven)
    } else if bits == 8 {
        Some(DataBits::Eight)
    } else {
        None
    }
}

/// The number of stop bits that a number stands for.
pub open spec fn stop_bits_of(bits: u8) -> Option<StopBits> {
    if bits == 1 {
        Some(StopBits::One)
    } else if bits == 2 {
        Some(StopBits::Two)
    } else {
        None
    }
}

/// What the argument for the data bits means, or why it means nothing.
pub open spec fn databits_of(s: Seq<char>) -> Result<DataBits, Seq<char>> {
    match byte_of(s) {
        None => Err("databits not a number: "@ + s),
        Some(bits) => match data_bits_of(bits) {
            Some(data_bits) => Ok(data_bits),
            None => Err("invalid databits: "@ + s),
        },
    }
}

/// What the argument for the stop bits means, or why it means nothing.
pub open spec fn stopbits_of(s: Seq<char>) -> Result<StopBits, Seq<char>> {
    match byte_of(s) {
        None => Err("stopbits not a number: "@ + s),
        Some(bits) => match stop_bits_of(bits) {
            Some(stop_bits) => Ok(stop_bits),
            None => Err("invalid stopbits: "@ + s),
        },
    }
}

/// What the argument for the flow control means, or why it means nothing.
pub open spec fn flow_of(s: Seq<char>) -> Result<FlowControl, Seq<char>> {
    if s == "none"@ {
        Ok(FlowControl::Off)
    } else if s == "soft"@ {
        Ok(FlowControl::Software)
    } else if s == "hard"@ {
        Ok(FlowControl::Hardware)
    } else {
        Err("invalid flow-control: "@ + s)
    }
}

/// What the argument for the parity means, or why it means nothing.
pub open spec fn parity_of(s: Seq<char>) -> Result<Parity, Seq<char>> {
    if s == "none"@ {
        Ok(Parity::Off)
    } else if s == "odd"@ {
        Ok(Parity::Odd)
    } else if s == "even"@ {
        Ok(Parity::Even)
    } else {
        Err("invalid parity setting: "@ + s)
    }
}

/// Whether `r` says what `expected` says.
pub open spec fn says<T>(r: Result<T, String>, expected: Result<T, Seq<char>>) -> bool {
    match (r, expected) {
        (Ok(a), Ok(b)) => a == b,
        (Err(a), Err(b)) => a@ == b,
        _ => false,
    }
}

/// Reads the argument for the data bits: 5, 6, 7 or 8.
pub fn parse_databits(s: &str) -> (r: Result<DataBits, String>)
    ensures
        says(r, databits_of(s@)),
{
    match parse_byte(s) {
        None => Err(String::from_str("databits not a number: ").concat(s)),
        Some(bits) => {
            if bits == 5 {
                Ok(DataBits::Five)
            } else if bits == 6 {
                Ok(DataBits::Six)
            } else if bits == 7 {
                Ok(DataBits::Seven)
            } else if bits == 8 {
                Ok(DataBits::Eight)
            } else {
                Err(String::from_str("invalid databits: ").concat(s))
            }
        },
    }
}

/// Reads the argument for the stop bits: 1 or 2.
pub fn parse_stopbits(s: &str) -> (r: Result<StopBits, String>)
    ensures
        says(r, stopbits_of(s@)),
{
    match parse_byte(s) {
        None => Err(String::from_str("stopbits not a number: ").concat(s)),
        Some(bits) => {
            if bits == 1 {
                Ok(StopBits::One)
            } else if bits == 2 {
                Ok(StopBits::Two)
            } else {
                Err(String::from_str("invalid stopbits: ").concat(s))
            }
        },
    }
}

/// Reads the argument for the flow control: `none`, `soft` or `hard`.
pub fn parse_flow(s: &str) -> (r: Result<FlowControl, String>)
    ensures
        says(r, flow_of(s@)),
{
    if is_text(s, "none") {
        Ok(FlowControl::Off)
    } else if is_text(s, "soft") {
        Ok(FlowControl::Software)
    } else if is_text(s, "hard") {
        Ok(FlowControl::Hardware)
    } else {
        Err(String::from_str("invalid flow-control: ").concat(s))
    }
}

/// Reads the argument for the parity: `none`, `odd` or `even`.
pub fn parse_parity(s: &str) -> (r: Result<Parity, String>)
    ensures
        says(r, parity_of(s@)),
{
    if is_text(s, "none") {
        Ok(Parity::Off)
    } else if is_text(s, "odd") {
        Ok(Parity::Odd)
    } else if is_text(s, "even") {
        Ok(Parity::Even)
    } else {
        Err(String::from_str("invalid parity setting: ").concat(s))
    }
}

} // verus!
