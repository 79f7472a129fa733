//! What an ill-formed sequence is called when it is reported in words.
use crate::validate::Utf8Error;
use vstd::prelude::*;
use vstd::string::StringExecFns;

verus! {

/// The character of the decimal digit `d`.
pub open spec fn digit(d: nat) -> char
    recommends
        d < 10,
{
    if d == 0 {
        '0'
    } else if d == 1 {
        '1'
    } else if d == 2 {
        '2'
    } else if d == 3 {
        '3'
    } else if d == 4 {
        '4'
    } else if d == 5 {
        '5'
    } else if d == 6 {
        '6'
    } else if d == 7 {
        '7'
    } else if d == 8 {
        '8'
    } else {
        '9'
    }
}

/// `n` in decimal digits, without leading zeros.
pub open spec fn decimal(n: nat) -> Seq<char>
    decreases n,
{
    if n < 10 {
        seq![digit(n)]
    } else {
        decimal(n / 10).push(digit(n % 10))
    }
}

/// The description of `error`: the extent of the ill-formed sequence, where it has
/// one, and the offset at which it starts.
pub open spec fn description(error: Utf8Error) -> Seq<char> {
    match error.error_len {
        Some(extent) => "invalid utf-8 sequence of "@ + decimal(extent as nat)
            + " bytes from index "@ + decimal(error.valid_up_to as nat),
        None => "incomplete utf-8 byte sequence from index "@ + decimal(
            error.valid_up_to as nat,
        ),
    }
}

/// The words in which a violation of the invariant is reported.
pub open spec fn violation_message(error: Utf8Error) -> Seq<char> {
    "`with_bytes` encountered invalid utf-8: "@ + description(error)
}

fn digit_text(d: usize) -> (text: &'static str)
    requires
        d < 10,
    ensures
        text@ == seq![digit(d as nat)],
{
    proof {
        reveal_strlit("0");
        reveal_strlit("1");
        reveal_strlit("2");
        reveal_strlit("3");
        reveal_strlit("4");
        reveal_strlit("5");
        reveal_strlit("6");
        reveal_strlit("7");
        reveal_strlit("8");
        reveal_strlit("9");
    }
    let text = if d == 0 {
        "0"
    } else if d == 1 {
        "1"
    } else if d == 2 {
        "2"
    } else if d == 3 {
        "3"
    } else if d == 4 {
        "4"
    } else if d == 5 {
        "5"
    } else if d == 6 {
        "6"
    } else if d == 7 {
        "7"
    } else if d == 8 {
        "8"
    } else {
        "9"
    };
    assert(text@ =~= seq![digit(d as nat)]);
    text
}

/// Appends `n` in decimal to `text`.
fn push_decimal(text: &mut String, n: usize)
    ensures
        final(text)@ == old(text)@ + decimal(n as nat),
    decreases n,
{
    if n >= 10 {
        push_decimal(text, n / 10);
    }
    text.append(digit_text(n % 10));
    assert(final(text)@ =~= old(text)@ + decimal(n as nat));
}

impl Utf8Error {
    /// Describes the error: the extent of the ill-formed sequence, where it has one,
    /// and the offset at which it starts.
    pub fn describe(&self) -> (text: String)
        ensures
            text@ == description(*self),
    {
        match self.error_len {
            Some(extent) => {
                let mut text = String::from_str("invalid utf-8 sequence of ");
                push_decimal(&mut text, extent as usize);
                text.append(" bytes from index ");
                push_decimal(&mut text, self.valid_up_to);
                text
            },
            None => {
                let mut text = String::from_str("incomplete utf-8 byte sequence from index ");
                push_decimal(&mut text, self.valid_up_to);
                text
            },
        }
    }

    /// Reports the error as a violation of the invariant that text is UTF-8.
    pub fn violation(&self) -> (text: String)
        ensures
            text@ == violation_message(*self),
    {
        let mut text = String::from_str("`with_bytes` encountered invalid utf-8: ");
        let described = self.describe();
        text.append(described.as_str());
        text
    }
}

} // verus!
