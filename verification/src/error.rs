//! The error returned when decoding fails.
use vstd::prelude::*;
use vstd::string::StringExecFns;

verus! {

/// Error type returned when decoding fails.
///
/// This covers all failure modes during binary deserialization: truncated
/// input, invalid UTF-8 in string fields, unrecognized enum tags and length
/// prefixes above the decoding limit.
#[derive(Debug, Clone, Copy, PartialEq, Eq, Structural)]
pub enum DecodeError {
    /// The input byte slice was shorter than expected.
    UnexpectedEof,
    /// A string field contained invalid UTF-8.
    InvalidUtf8,
    /// An enum tag did not match any known variant.
    UnknownTag(u8),
    /// A length prefix in the input is unreasonably large.
    LengthTooLarge,
}

/// The decimal digit `d` as a character.
pub open spec fn digit_char(d: nat) -> char {
    if d == 0 {
        '0'
    } else if d == 1 {
        '1'
    } else if d == 2 {
        '2'
    } else if d == 3 {
        '3'
    } else if d == 4 {
        '4'
    } else if d == 5 {
        '5'
    } else if d == 6 {
        '6'
    } else if d == 7 {
        '7'
    } else if d == 8 {
        '8'
    } else {
        '9'
    }
}

/// The decimal notation of `n`, without leading zeros.
pub open spec fn decimal(n: nat) -> Seq<char>
    decreases n,
{
    if n < 10 {
        seq![digit_char(n)]
    } else {
        decimal(n / 10) + seq![digit_char(n % 10)]
    }
}

/// The human-readable description of an error.
pub open spec fn describe_spec(e: DecodeError) -> Seq<char> {
    match e {
        DecodeError::UnexpectedEof => "unexpected end of input"@,
        DecodeError::InvalidUtf8 => "invalid UTF-8 in string field"@,
        DecodeError::UnknownTag(tag) => "unknown enum tag: "@ + decimal(tag as nat),
        DecodeError::LengthTooLarge => "length prefix is too large"@,
    }
}

/// The decimal digit `d` as a one-character string.
fn digit_str(d: u8) -> (r: &'static str)
    requires
        d < 10,
    ensures
        r@ == seq![digit_char(d as nat)],
{
    proof {
        reveal_strlit("0");
        reveal_strlit("1");
        reveal_strlit("2");
        reveal_strlit("3");
        reveal_strlit("4");
        reveal_strlit("5");
        reveal_strlit("6");
        reveal_strlit("7");
        reveal_strlit("8");
        reveal_strlit("9");
    }
    if d == 0 {
        "0"
    } else if d == 1 {
        "1"
    } else if d == 2 {
        "2"
    } else if d == 3 {
        "3"
    } else if d == 4 {
        "4"
    } else if d == 5 {
        "5"
    } else if d == 6 {
        "6"
    } else if d == 7 {
        "7"
    } else if d == 8 {
        "8"
    } else {
        "9"
    }
}

/// Append the decimal notation of `n` to `s`.
fn push_decimal(s: &mut String, n: u8)
    ensures
        final(s)@ == old(s)@ + decimal(n as nat),
    decreases n,
{
    if n < 10 {
        s.append(digit_str(n));
    } else {
        push_decimal(s, n / 10);
        s.append(digit_str(n % 10));
        assert(decimal(n as nat) == decimal((n / 10) as nat) + seq![digit_char((n % 10) as nat)]);
    }
}

impl DecodeError {
    /// A human-readable description of the error.
    pub fn describe(&self) -> (r: String)
        ensures
            r@ == describe_spec(*self),
    {
        match self {
            DecodeError::UnexpectedEof => "unexpected end of input".to_owned(),
            DecodeError::InvalidUtf8 => "invalid UTF-8 in string field".to_owned(),
            DecodeError::UnknownTag(tag) => {
                let mut s = "unknown enum tag: ".to_owned();
                push_decimal(&mut s, *tag);
                s
            },
            DecodeError::LengthTooLarge => "length prefix is too large".to_owned(),
        }
    }
}

} // verus!
