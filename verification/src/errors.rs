//! The error values the crate returns, and their printable messages.

use vstd::prelude::*;
use vstd::string::StringExecFns;

verus! {

/// A failure while reading card notation or while building a hand.
#[derive(Clone, Copy, PartialEq, Eq, Structural, Debug)]
pub enum CribleError {
    /// A character where a card number was expected but is none.
    InvalidNumber(char),
    /// A character where a suit letter was expected but is none.
    InvalidSuit(char),
    /// The input ended after a card number, before its suit; holds the number
    /// character that was left dangling.
    MissingSuit(char),
    /// A hand was built from a count of cards other than four; holds the count.
    HandSize(usize),
}

/// The digit character for one decimal digit.
pub open spec fn digit_char(d: int) -> char {
    if d == 0 {
        '0'
    } else if d == 1 {
        '1'
    } else if d == 2 {
        '2'
    } else if d == 3 {
        '3'
    } else if d == 4 {
        '4'
    } else if d == 5 {
        '5'
    } else if d == 6 {
        '6'
    } else if d == 7 {
        '7'
    } else if d == 8 {
        '8'
    } else {
        '9'
    }
}

/// The decimal rendering of a natural number, most significant digit first.
pub open spec fn dec_str(n: nat) -> Seq<char>
    decreases n,
{
    if n < 10 {
        seq![digit_char(n as int)]
    } else {
        dec_str(n / 10).push(digit_char((n % 10) as int))
    }
}

/// The message text of an error, as a character sequence.
pub open spec fn spec_message(e: CribleError) -> Seq<char> {
    match e {
        CribleError::InvalidNumber(c) => "Invalid card number: "@ + seq![c]
            + ", must be one of: A23456789TJQK"@,
        CribleError::InvalidSuit(c) => "Invalid suit: "@ + seq![c] + ", must be one of: shdc"@,
        CribleError::MissingSuit(c) => "unexpected end, missing suit after "@ + seq![c],
        CribleError::HandSize(n) => "4 card expected, "@ + dec_str(n as nat) + " given"@,
    }
}

/// Relies on `String::push`: appends exactly the one character.
#[verifier::external_body]
fn push_char(s: &mut String, c: char)
    ensures
        final(s)@ == old(s)@.push(c),
{
    s.push(c);
}

/// The decimal rendering of a number, digit characters most significant first.
fn render_decimal(n: usize) -> (r: String)
    ensures
        r@ == dec_str(n as nat),
    decreases n,
{
    if n < 10 {
        let mut s = String::new();
        push_char(&mut s, digit_of(n));
        proof {
            assert(s@ =~= dec_str(n as nat));
        }
        s
    } else {
        let mut s = render_decimal(n / 10);
        push_char(&mut s, digit_of(n % 10));
        s
    }
}

/// The digit character for a value below ten.
fn digit_of(d: usize) -> (r: char)
    requires
        d < 10,
    ensures
        r == digit_char(d as int),
{
    match d {
        0 => '0',
        1 => '1',
        2 => '2',
        3 => '3',
        4 => '4',
        5 => '5',
        6 => '6',
        7 => '7',
        8 => '8',
        _ => '9',
    }
}

impl CribleError {
    /// The human-readable description of the failure.
    pub fn message(&self) -> (r: String)
        ensures
            r@ == spec_message(*self),
    {
        match self {
            CribleError::InvalidNumber(c) => {
                let mut s = String::from_str("Invalid card number: ");
                push_char(&mut s, *c);
                s.append(", must be one of: A23456789TJQK");
                proof {
                    assert(s@ =~= spec_message(*self));
                }
                s
            },
            CribleError::InvalidSuit(c) => {
                let mut s = String::from_str("Invalid suit: ");
                push_char(&mut s, *c);
                s.append(", must be one of: shdc");
                proof {
                    assert(s@ =~= spec_message(*self));
                }
                s
            },
            CribleError::MissingSuit(c) => {
                let mut s = String::from_str("unexpected end, missing suit after ");
                push_char(&mut s, *c);
                proof {
                    assert(s@ =~= spec_message(*self));
                }
                s
            },
            CribleError::HandSize(n) => {
                let mut s = String::from_str("4 card expected, ");
                let digits = render_decimal(*n);
                s.append(digits.as_str());
                s.append(" given");
                proof {
                    assert(s@ =~= spec_message(*self));
                }
                s
            },
        }
    }
}

} // verus!
