//! Error and result types of the protocol codec.
use vstd::prelude::*;

verus! {

/// The kind of an input/output failure.
#[derive(Debug, Clone, Copy, PartialEq, Eq, Structural)]
pub enum IoErrorKind {
    /// The input ended before a complete value could be read.
    UnexpectedEof,
    /// Any other input/output failure (reported by a live connection).
    Other,
}

/// Errors reported by the codec.
#[derive(Debug)]
pub enum Error {
    Io(IoErrorKind),
    Encoding(String),
    Protocol(String),
    UnknownCode(u32),
    UnknownDistribCode(u8),
    Zlib(String),
    LoginRejected(String),
}

pub type Result<T> = std::result::Result<T, Error>;

/// The error returned when the input ends too early.
pub open spec fn eof_error() -> Error {
    Error::Io(IoErrorKind::UnexpectedEof)
}

/// The decimal digits of a natural number, as `Display` writes them.
pub open spec fn decimal(n: nat) -> Seq<char>
    decreases n,
{
    if n < 10 {
        seq![(n + 48) as char]
    } else {
        decimal(n / 10).push(((n % 10) + 48) as char)
    }
}

/// The decimal digit of a value below 10, as a one-character string.
fn digit_str(d: u64) -> (s: &'static str)
    requires
        d < 10,
    ensures
        s@ == seq![(d + 48) as char],
{
    match d {
        0 => {
            proof {
                reveal_strlit("0");
            }
            "0"
        },
        1 => {
            proof {
                reveal_strlit("1");
            }
            "1"
        },
        2 => {
            proof {
                reveal_strlit("2");
            }
            "2"
        },
        3 => {
            proof {
                reveal_strlit("3");
            }
            "3"
        },
        4 => {
            proof {
                reveal_strlit("4");
            }
            "4"
        },
        5 => {
            proof {
                reveal_strlit("5");
            }
            "5"
        },
        6 => {
            proof {
                reveal_strlit("6");
            }
            "6"
        },
        7 => {
            proof {
                reveal_strlit("7");
            }
            "7"
        },
        8 => {
            proof {
                reveal_strlit("8");
            }
            "8"
        },
        _ => {
            proof {
                reveal_strlit("9");
            }
            "9"
        },
    }
}

/// The decimal digits of `n`.
pub fn decimal_string(n: u64) -> (s: String)
    ensures
        s@ == decimal(n as nat),
    decreases n,
{
    if n < 10 {
        String::from_str(digit_str(n))
    } else {
        let mut s = decimal_string(n / 10);
        s.append(digit_str(n % 10));
        s
    }
}

/// A message made of a text, a space, and a number.
pub fn message_with_number(prefix: &str, value: u32) -> (m: String)
    ensures
        m@ == prefix@ + seq![' '] + decimal(value as nat),
{
    let mut m = String::from_str(prefix);
    proof {
        reveal_strlit(" ");
    }
    m.append(" ");
    let digits = decimal_string(value as u64);
    m.append(digits.as_str());
    m
}

} // verus!
